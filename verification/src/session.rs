//! Client sessions: what the server remembers of each connected client.

use std::collections::BTreeSet;
use vstd::prelude::*;
use crate::protocol::{PortType, SessionCounter, SessionId};
use crate::types::{ProcessCredentials, SegmentId};

verus! {

broadcast use {vstd::laws_cmp::group_laws_cmp, vstd::std_specs::btree::group_btree_axioms};

/// Information about an attached port.
#[derive(Debug, Clone, Copy, PartialEq, Eq, Hash, Structural)]
pub struct PortInfo {
    /// The unique port identifier.
    pub port_id: u128,
    /// The type of port.
    pub port_type: PortType,
}

impl PortInfo {
    /// Creates a new port info entry.
    pub fn new(port_id: u128, port_type: PortType) -> (info: PortInfo)
        ensures
            info == (PortInfo { port_id, port_type }),
    {
        PortInfo { port_id, port_type }
    }
}

/// Tracks cumulative resource usage for a session, by which the server enforces limits. The
/// counters follow ports and segments as they are created and destroyed.
#[derive(Debug, Clone, Copy, PartialEq, Eq, Structural)]
pub struct SessionResourceUsage {
    /// Number of publisher ports currently attached.
    pub publisher_count: usize,
    /// Number of subscriber ports currently attached.
    pub subscriber_count: usize,
    /// Number of server ports currently attached.
    pub server_count: usize,
    /// Number of client ports currently attached.
    pub client_count: usize,
    /// Total number of segments granted to this session.
    pub segment_count: usize,
    /// Total memory (in bytes) allocated across all granted segments.
    pub total_memory: usize,
}

/// The sum, or the largest number where the sum is larger.
pub open spec fn capped_sum(a: usize, b: usize) -> usize {
    if a + b > usize::MAX {
        usize::MAX
    } else {
        (a + b) as usize
    }
}

/// The difference, or zero where it is negative.
pub open spec fn floored_difference(a: usize, b: usize) -> usize {
    if a < b {
        0
    } else {
        (a - b) as usize
    }
}

impl SessionResourceUsage {
    /// No ports, no segments, no memory.
    pub open spec fn zero() -> SessionResourceUsage {
        SessionResourceUsage {
            publisher_count: 0,
            subscriber_count: 0,
            server_count: 0,
            client_count: 0,
            segment_count: 0,
            total_memory: 0,
        }
    }

    /// The number of ports of a type.
    pub open spec fn ports(self, port_type: PortType) -> usize {
        match port_type {
            PortType::Publisher => self.publisher_count,
            PortType::Subscriber => self.subscriber_count,
            PortType::Server => self.server_count,
            PortType::Client => self.client_count,
        }
    }

    /// The usage with another number of ports of a type.
    pub open spec fn with_ports(self, port_type: PortType, count: usize) -> SessionResourceUsage {
        match port_type {
            PortType::Publisher => SessionResourceUsage { publisher_count: count, ..self },
            PortType::Subscriber => SessionResourceUsage { subscriber_count: count, ..self },
            PortType::Server => SessionResourceUsage { server_count: count, ..self },
            PortType::Client => SessionResourceUsage { client_count: count, ..self },
        }
    }

    /// The usage with one port more of a type.
    pub open spec fn with_port(self, port_type: PortType) -> SessionResourceUsage {
        self.with_ports(port_type, (self.ports(port_type) + 1) as usize)
    }

    /// The usage with one port less of a type, never less than none.
    pub open spec fn without_port(self, port_type: PortType) -> SessionResourceUsage {
        self.with_ports(port_type, floored_difference(self.ports(port_type), 1))
    }

    /// The usage with one segment more.
    pub open spec fn with_segment(self, size: usize) -> SessionResourceUsage {
        SessionResourceUsage {
            segment_count: (self.segment_count + 1) as usize,
            total_memory: capped_sum(self.total_memory, size),
            ..self
        }
    }

    /// The usage with one segment less, never less than none.
    pub open spec fn without_segment(self, size: usize) -> SessionResourceUsage {
        SessionResourceUsage {
            segment_count: floored_difference(self.segment_count, 1),
            total_memory: floored_difference(self.total_memory, size),
            ..self
        }
    }

    /// Creates a new usage tracker with all counts at zero.
    pub fn new() -> (usage: SessionResourceUsage)
        ensures
            usage == SessionResourceUsage::zero(),
    {
        SessionResourceUsage {
            publisher_count: 0,
            subscriber_count: 0,
            server_count: 0,
            client_count: 0,
            segment_count: 0,
            total_memory: 0,
        }
    }

    /// Increments the port count for the given port type.
    pub fn increment_port(&mut self, port_type: PortType)
        requires
            old(self).ports(port_type) < usize::MAX,
        ensures
            *final(self) == old(self).with_port(port_type),
    {
        match port_type {
            PortType::Publisher => {
                self.publisher_count += 1;
            },
            PortType::Subscriber => {
                self.subscriber_count += 1;
            },
            PortType::Server => {
                self.server_count += 1;
            },
            PortType::Client => {
                self.client_count += 1;
            },
        }
    }

    /// Decrements the port count for the given port type, down to zero.
    pub fn decrement_port(&mut self, port_type: PortType)
        ensures
            *final(self) == old(self).without_port(port_type),
    {
        match port_type {
            PortType::Publisher => {
                self.publisher_count = self.publisher_count.saturating_sub(1);
            },
            PortType::Subscriber => {
                self.subscriber_count = self.subscriber_count.saturating_sub(1);
            },
            PortType::Server => {
                self.server_count = self.server_count.saturating_sub(1);
            },
            PortType::Client => {
                self.client_count = self.client_count.saturating_sub(1);
            },
        }
    }

    /// Records a segment grant of the given size.
    pub fn add_segment(&mut self, size: usize)
        requires
            old(self).segment_count < usize::MAX,
        ensures
            *final(self) == old(self).with_segment(size),
    {
        self.segment_count += 1;
        self.total_memory = self.total_memory.saturating_add(size);
    }

    /// Records a segment revocation of the given size, down to zero.
    pub fn remove_segment(&mut self, size: usize)
        ensures
            *final(self) == old(self).without_segment(size),
    {
        self.segment_count = self.segment_count.saturating_sub(1);
        self.total_memory = self.total_memory.saturating_sub(size);
    }
}

impl Default for SessionResourceUsage {
    fn default() -> (usage: Self)
        ensures
            usage == SessionResourceUsage::zero(),
    {
        SessionResourceUsage::new()
    }
}

/// All that is known of a session.
#[verifier::ext_equal]
pub struct SessionState {
    /// The session identifier.
    pub id: SessionId,
    /// The client's process credentials.
    pub credentials: ProcessCredentials,
    /// When the session was created.
    pub authenticated_at: u64,
    /// The attached ports in the order in which they came.
    pub ports: Seq<PortInfo>,
    /// The segments that the client was granted access to.
    pub granted: Set<u8>,
    /// The segments whose retirement the client has to acknowledge.
    pub pending: Set<u8>,
    /// The resources that the session uses.
    pub usage: SessionResourceUsage,
}

/// Whether a port is attached.
pub open spec fn attached(ports: Seq<PortInfo>, port_id: u128) -> bool {
    exists|i: int| 0 <= i < ports.len() && (#[trigger] ports[i]).port_id == port_id
}

/// Whether a port stands at an index and not before.
pub open spec fn first_at(ports: Seq<PortInfo>, port_id: u128, i: int) -> bool {
    &&& 0 <= i < ports.len()
    &&& ports[i].port_id == port_id
    &&& forall|j: int| 0 <= j < i ==> (#[trigger] ports[j]).port_id != port_id
}

/// Where a port stands first.
pub open spec fn position(ports: Seq<PortInfo>, port_id: u128) -> int {
    choose|i: int| first_at(ports, port_id, i)
}

/// The type of an attached port.
pub open spec fn type_of(ports: Seq<PortInfo>, port_id: u128) -> Option<PortType> {
    if attached(ports, port_id) {
        Some(ports[position(ports, port_id)].port_type)
    } else {
        None
    }
}

/// The number of attached ports of a type.
pub open spec fn count_of(ports: Seq<PortInfo>, port_type: PortType) -> nat
    decreases ports.len(),
{
    if ports.len() == 0 {
        0
    } else {
        count_of(ports.drop_last(), port_type) + if ports.last().port_type == port_type {
            1nat
        } else {
            0
        }
    }
}

/// The segments below `n` that are in a set, in their order.
pub open spec fn ascending(set: Set<u8>, n: int) -> Seq<SegmentId>
    decreases n,
{
    if n <= 0 {
        Seq::empty()
    } else if set.contains((n - 1) as u8) {
        ascending(set, n - 1).push(SegmentId { value: (n - 1) as u8 })
    } else {
        ascending(set, n - 1)
    }
}

impl SessionState {
    /// A session that has done nothing yet.
    pub open spec fn fresh(
        id: SessionId,
        credentials: ProcessCredentials,
        authenticated_at: u64,
    ) -> SessionState {
        SessionState {
            id,
            credentials,
            authenticated_at,
            ports: Seq::empty(),
            granted: Set::empty(),
            pending: Set::empty(),
            usage: SessionResourceUsage::zero(),
        }
    }

    /// The session once a port is attached; a port that is already attached changes nothing.
    pub open spec fn with_port(self, port_id: u128, port_type: PortType) -> SessionState {
        if attached(self.ports, port_id) {
            self
        } else {
            SessionState {
                ports: self.ports.push(PortInfo { port_id, port_type }),
                usage: self.usage.with_port(port_type),
                ..self
            }
        }
    }

    /// The session once a port is detached.
    pub open spec fn without_port(self, port_id: u128) -> SessionState {
        if attached(self.ports, port_id) {
            SessionState {
                ports: self.ports.remove(position(self.ports, port_id)),
                usage: self.usage.without_port(
                    self.ports[position(self.ports, port_id)].port_type,
                ),
                ..self
            }
        } else {
            self
        }
    }

    /// The session once it has access to a segment; access that it has already changes
    /// nothing.
    pub open spec fn with_segment(self, id: u8, size: usize) -> SessionState {
        if self.granted.contains(id) {
            self
        } else {
            SessionState {
                granted: self.granted.insert(id),
                usage: self.usage.with_segment(size),
                ..self
            }
        }
    }

    /// The session once it has no access to a segment any more.
    pub open spec fn without_segment(self, id: u8, size: usize) -> SessionState {
        if self.granted.contains(id) {
            SessionState {
                granted: self.granted.remove(id),
                pending: self.pending.remove(id),
                usage: self.usage.without_segment(size),
                ..self
            }
        } else {
            self
        }
    }

    /// Whether the counters of the session tell the number of its ports, and no port is
    /// attached twice.
    pub open spec fn accounts_for_ports(self) -> bool {
        &&& forall|port_type: PortType|
            #![trigger self.usage.ports(port_type)]
            #![trigger count_of(self.ports, port_type)]
            self.usage.ports(port_type) == count_of(self.ports, port_type)
        &&& forall|i: int, j: int|
            0 <= i < j < self.ports.len() ==> (#[trigger] self.ports[i]).port_id != (
            #[trigger] self.ports[j]).port_id
    }
}

/// Client session state tracked by the server.
#[derive(Debug)]
pub struct ClientSession {
    id: SessionId,
    credentials: ProcessCredentials,
    authenticated_at: u64,
    attached_ports: Vec<PortInfo>,
    granted_segments: BTreeSet<u8>,
    pending_retirements: BTreeSet<u8>,
    resource_usage: SessionResourceUsage,
}

impl View for ClientSession {
    type V = SessionState;

    closed spec fn view(&self) -> SessionState {
        SessionState {
            id: self.id,
            credentials: self.credentials,
            authenticated_at: self.authenticated_at,
            ports: self.attached_ports@,
            granted: self.granted_segments@,
            pending: self.pending_retirements@,
            usage: self.resource_usage,
        }
    }
}

/// Returns the segments of a set in ascending order.
fn list_ascending(set: &BTreeSet<u8>) -> (ids: Vec<SegmentId>)
    ensures
        ids@ == ascending(set@, 256),
{
    let mut ids: Vec<SegmentId> = Vec::new();
    let mut next: usize = 0;
    while next < 256
        invariant
            next <= 256,
            ids@ == ascending(set@, next as int),
        decreases 256 - next,
    {
        let value: u8 = next as u8;
        if set.contains(&value) {
            ids.push(SegmentId::new(value));
        }
        next += 1;
    }
    ids
}

impl ClientSession {
    /// Creates a new client session with the next identifier of a counter that is not
    /// exhausted. `now` is the time at which the client authenticated.
    pub fn new(
        credentials: ProcessCredentials,
        counter: &mut SessionCounter,
        now: u64,
    ) -> (session: ClientSession)
        requires
            old(counter).next() != 0,
        ensures
            session@ == SessionState::fresh(
                SessionId { value: old(counter).next() },
                credentials,
                now,
            ),
            final(counter).next() == crate::protocol::next_session_number(old(counter).next()),
    {
        ClientSession {
            id: SessionId::new(counter),
            credentials,
            authenticated_at: now,
            attached_ports: Vec::new(),
            granted_segments: BTreeSet::new(),
            pending_retirements: BTreeSet::new(),
            resource_usage: SessionResourceUsage::new(),
        }
    }

    /// Returns the session identifier.
    pub fn id(&self) -> (id: SessionId)
        ensures
            id == self@.id,
    {
        self.id
    }

    /// Returns a reference to the client's credentials.
    pub fn credentials(&self) -> (credentials: &ProcessCredentials)
        ensures
            *credentials == self@.credentials,
    {
        &self.credentials
    }

    /// Returns when the session was authenticated.
    pub fn authenticated_at(&self) -> (time: u64)
        ensures
            time == self@.authenticated_at,
    {
        self.authenticated_at
    }

    /// Returns a reference to the resource usage tracker.
    pub fn resource_usage(&self) -> (usage: &SessionResourceUsage)
        ensures
            *usage == self@.usage,
    {
        &self.resource_usage
    }

    /// Returns a mutable reference to the resource usage tracker.
    pub fn resource_usage_mut(&mut self) -> (usage: &mut SessionResourceUsage)
        ensures
            *usage == old(self)@.usage,
            final(self)@ == (SessionState { usage: *final(usage), ..old(self)@ }),
    {
        &mut self.resource_usage
    }

    /// Returns the index of a port.
    fn find_port(&self, port_id: u128) -> (found: Option<usize>)
        ensures
            match found {
                Some(i) => first_at(self@.ports, port_id, i as int) && attached(
                    self@.ports,
                    port_id,
                ) && position(self@.ports, port_id) == i,
                None => !attached(self@.ports, port_id),
            },
    {
        let mut i: usize = 0;
        while i < self.attached_ports.len()
            invariant
                i <= self.attached_ports@.len(),
                forall|j: int|
                    0 <= j < i ==> (#[trigger] self.attached_ports@[j]).port_id != port_id,
            decreases self.attached_ports@.len() - i,
        {
            if self.attached_ports[i].port_id == port_id {
                proof {
                    assert(first_at(self@.ports, port_id, i as int));
                    let p = position(self@.ports, port_id);
                    assert(first_at(self@.ports, port_id, p));
                    assert(p == i) by {
                        if p < i {
                            assert(self@.ports[p].port_id != port_id);
                        } else if i < p {
                            assert(self@.ports[i as int].port_id != port_id);
                        }
                    }
                }
                return Some(i);
            }
            i += 1;
        }
        None
    }

    /// Adds a port to the session's attached ports.
    ///
    /// Returns `true` if the port was newly added. A port that is already attached is left
    /// alone, and so are the counters.
    pub fn add_port(&mut self, port_id: u128, port_type: PortType) -> (added: bool)
        requires
            attached(old(self)@.ports, port_id) || old(self)@.usage.ports(port_type) < usize::MAX,
        ensures
            added == !attached(old(self)@.ports, port_id),
            final(self)@ == old(self)@.with_port(port_id, port_type),
    {
        if self.find_port(port_id).is_some() {
            return false;
        }
        self.attached_ports.push(PortInfo::new(port_id, port_type));
        self.resource_usage.increment_port(port_type);
        true
    }

    /// Removes a port from the session's attached ports.
    ///
    /// Returns `true` if the port was found and removed.
    pub fn remove_port(&mut self, port_id: u128) -> (removed: bool)
        ensures
            removed == attached(old(self)@.ports, port_id),
            final(self)@ == old(self)@.without_port(port_id),
    {
        match self.find_port(port_id) {
            Some(i) => {
                let info = self.attached_ports.remove(i);
                self.resource_usage.decrement_port(info.port_type);
                true
            },
            None => false,
        }
    }

    /// Checks if the session has a specific port attached.
    pub fn has_port(&self, port_id: u128) -> (has: bool)
        ensures
            has == attached(self@.ports, port_id),
    {
        self.find_port(port_id).is_some()
    }

    /// Returns the type of an attached port.
    pub fn port_type(&self, port_id: u128) -> (port_type: Option<PortType>)
        ensures
            port_type == type_of(self@.ports, port_id),
    {
        match self.find_port(port_id) {
            Some(i) => Some(self.attached_ports[i].port_type),
            None => None,
        }
    }

    /// Returns the number of attached ports.
    pub fn port_count(&self) -> (count: usize)
        ensures
            count == self@.ports.len(),
    {
        self.attached_ports.len()
    }

    /// Returns the attached ports in the order in which they came.
    pub fn ports(&self) -> (ports: &Vec<PortInfo>)
        ensures
            ports@ == self@.ports,
    {
        &self.attached_ports
    }

    /// Grants the session access to a segment.
    ///
    /// Returns `true` if the segment was newly added, `false` if already granted.
    pub fn grant_segment(&mut self, segment_id: SegmentId, size: usize) -> (added: bool)
        requires
            old(self)@.granted.contains(segment_id.value) || old(self)@.usage.segment_count
                < usize::MAX,
        ensures
            added == !old(self)@.granted.contains(segment_id.value),
            final(self)@ == old(self)@.with_segment(segment_id.value, size),
    {
        let ghost before = self@.granted;
        if self.granted_segments.insert(segment_id.value) {
            self.resource_usage.add_segment(size);
            true
        } else {
            assert(self@.granted =~= before);
            false
        }
    }

    /// Notes that the session has access to a segment that is counted elsewhere.
    pub(crate) fn note_segment(&mut self, segment_id: SegmentId)
        ensures
            final(self)@ == (SessionState {
                granted: old(self)@.granted.insert(segment_id.value),
                ..old(self)@
            }),
    {
        self.granted_segments.insert(segment_id.value);
    }

    /// Revokes the session's access to a segment, and with it a pending retirement.
    ///
    /// Returns `true` if the segment was found and revoked.
    pub fn revoke_segment(&mut self, segment_id: SegmentId, size: usize) -> (revoked: bool)
        ensures
            revoked == old(self)@.granted.contains(segment_id.value),
            final(self)@ == old(self)@.without_segment(segment_id.value, size),
    {
        let ghost before = self@.granted;
        if self.granted_segments.remove(&segment_id.value) {
            self.resource_usage.remove_segment(size);
            self.pending_retirements.remove(&segment_id.value);
            true
        } else {
            assert(self@.granted =~= before);
            false
        }
    }

    /// Checks if the session has access to a segment.
    pub fn has_segment(&self, segment_id: SegmentId) -> (has: bool)
        ensures
            has == self@.granted.contains(segment_id.value),
    {
        self.granted_segments.contains(&segment_id.value)
    }

    /// Returns the number of granted segments.
    pub fn segment_count(&self) -> (count: usize)
        ensures
            count == self@.granted.len(),
    {
        self.granted_segments.len()
    }

    /// Returns the granted segment IDs in ascending order.
    pub fn segments(&self) -> (ids: Vec<SegmentId>)
        ensures
            ids@ == ascending(self@.granted, 256),
    {
        list_ascending(&self.granted_segments)
    }

    /// Marks a segment as pending retirement acknowledgment.
    ///
    /// Returns `true` if the segment was not pending before.
    pub fn add_pending_retirement(&mut self, segment_id: SegmentId) -> (added: bool)
        ensures
            added == !old(self)@.pending.contains(segment_id.value),
            final(self)@ == (SessionState {
                pending: old(self)@.pending.insert(segment_id.value),
                ..old(self)@
            }),
    {
        self.pending_retirements.insert(segment_id.value)
    }

    /// Acknowledges a segment retirement.
    ///
    /// Returns `true` if the segment was pending.
    pub fn ack_retirement(&mut self, segment_id: SegmentId) -> (acknowledged: bool)
        ensures
            acknowledged == old(self)@.pending.contains(segment_id.value),
            final(self)@ == (SessionState {
                pending: old(self)@.pending.remove(segment_id.value),
                ..old(self)@
            }),
    {
        self.pending_retirements.remove(&segment_id.value)
    }

    /// Checks if a segment is pending retirement acknowledgment.
    pub fn has_pending_retirement(&self, segment_id: SegmentId) -> (pending: bool)
        ensures
            pending == self@.pending.contains(segment_id.value),
    {
        self.pending_retirements.contains(&segment_id.value)
    }

    /// Returns the number of pending retirement acknowledgments.
    pub fn pending_retirement_count(&self) -> (count: usize)
        ensures
            count == self@.pending.len(),
    {
        self.pending_retirements.len()
    }

    /// Returns the pending retirement segment IDs in ascending order.
    pub fn pending_retirements(&self) -> (ids: Vec<SegmentId>)
        ensures
            ids@ == ascending(self@.pending, 256),
    {
        list_ascending(&self.pending_retirements)
    }
}

proof fn lemma_count_remove(ports: Seq<PortInfo>, i: int, port_type: PortType)
    requires
        0 <= i < ports.len(),
    ensures
        count_of(ports, port_type) == count_of(ports.remove(i), port_type) + if ports[i].port_type
            == port_type {
            1nat
        } else {
            0
        },
    decreases ports.len(),
{
    if i == ports.len() - 1 {
        assert(ports.remove(i) =~= ports.drop_last());
    } else {
        lemma_count_remove(ports.drop_last(), i, port_type);
        assert(ports.remove(i).drop_last() =~= ports.drop_last().remove(i));
        assert(ports.remove(i).last() == ports.last());
    }
}

/// A new session's counters tell the number of its ports.
pub proof fn law_new_session_accounts(
    id: SessionId,
    credentials: ProcessCredentials,
    authenticated_at: u64,
)
    ensures
        SessionState::fresh(id, credentials, authenticated_at).accounts_for_ports(),
{
}

/// Attaching a port keeps the counters right: whatever ports come, also twice, the counter of
/// each type is the number of attached ports of that type.
pub proof fn law_attaching_accounts(state: SessionState, port_id: u128, port_type: PortType)
    requires
        state.accounts_for_ports(),
        state.usage.ports(port_type) < usize::MAX,
    ensures
        state.with_port(port_id, port_type).accounts_for_ports(),
        attached(state.with_port(port_id, port_type).ports, port_id),
{
    let after = state.with_port(port_id, port_type);
    if !attached(state.ports, port_id) {
        assert(after.ports.drop_last() =~= state.ports);
        assert forall|other: PortType|
            #![trigger after.usage.ports(other)]
            #![trigger count_of(after.ports, other)]
            after.usage.ports(other) == count_of(after.ports, other) by {
            assert(state.usage.ports(other) == count_of(state.ports, other));
        }
        assert(after.ports[after.ports.len() - 1].port_id == port_id);
        assert forall|i: int, j: int| 0 <= i < j < after.ports.len() implies (
        #[trigger] after.ports[i]).port_id != (#[trigger] after.ports[j]).port_id by {
            assert(state.ports[i] == after.ports[i]);
        }
    }
}

/// Detaching a port keeps the counters right.
pub proof fn law_detaching_accounts(state: SessionState, port_id: u128)
    requires
        state.accounts_for_ports(),
    ensures
        state.without_port(port_id).accounts_for_ports(),
        !attached(state.without_port(port_id).ports, port_id),
{
    let after = state.without_port(port_id);
    if attached(state.ports, port_id) {
        lemma_position(state.ports, port_id);
        let p = position(state.ports, port_id);
        assert forall|other: PortType|
            #![trigger after.usage.ports(other)]
            #![trigger count_of(after.ports, other)]
            after.usage.ports(other) == count_of(after.ports, other) by {
            lemma_count_remove(state.ports, p, other);
            assert(state.usage.ports(other) == count_of(state.ports, other));
        }
        assert forall|i: int| 0 <= i < after.ports.len() implies (
        #[trigger] after.ports[i]).port_id != port_id by {
            if i < p {
                assert(after.ports[i] == state.ports[i]);
            } else {
                assert(after.ports[i] == state.ports[i + 1]);
                assert(state.ports[p].port_id != state.ports[i + 1].port_id);
            }
        }
        assert forall|i: int, j: int| 0 <= i < j < after.ports.len() implies (
        #[trigger] after.ports[i]).port_id != (#[trigger] after.ports[j]).port_id by {
            let a = if i < p {
                i
            } else {
                i + 1
            };
            let b = if j < p {
                j
            } else {
                j + 1
            };
            assert(after.ports[i] == state.ports[a]);
            assert(after.ports[j] == state.ports[b]);
        }
    }
}

/// An attached port has a first position.
pub proof fn lemma_position(ports: Seq<PortInfo>, port_id: u128)
    requires
        attached(ports, port_id),
    ensures
        first_at(ports, port_id, position(ports, port_id)),
    decreases ports.len(),
{
    let i = choose|i: int| 0 <= i < ports.len() && (#[trigger] ports[i]).port_id == port_id;
    if first_at(ports, port_id, i) {
    } else {
        let j = choose|j: int| 0 <= j < i && (#[trigger] ports[j]).port_id == port_id;
        let front = ports.take(i);
        assert(front[j] == ports[j]);
        lemma_position(front, port_id);
        let p = position(front, port_id);
        assert(ports[p] == front[p]);
        assert forall|k: int| 0 <= k < p implies (#[trigger] ports[k]).port_id != port_id by {
            assert(front[k] == ports[k]);
        }
        assert(first_at(ports, port_id, p));
    }
}

/// Detaching a port that was just attached gives the session from before.
pub proof fn law_detaching_undoes_attaching(
    state: SessionState,
    port_id: u128,
    port_type: PortType,
)
    requires
        !attached(state.ports, port_id),
        state.usage.ports(port_type) < usize::MAX,
    ensures
        state.with_port(port_id, port_type).without_port(port_id) == state,
{
    let after = state.with_port(port_id, port_type);
    let last = after.ports.len() - 1;
    assert(after.ports[last].port_id == port_id);
    assert forall|j: int| 0 <= j < last implies (#[trigger] after.ports[j]).port_id
        != port_id by {
        assert(after.ports[j] == state.ports[j]);
    }
    assert(attached(after.ports, port_id));
    lemma_position(after.ports, port_id);
    assert(position(after.ports, port_id) == last);
    assert(after.without_port(port_id).ports =~= state.ports);
}

/// Revoking a segment that was just granted gives the session from before, unless the memory
/// counter had reached its end or the segment waited for an acknowledgment.
pub proof fn law_revoking_undoes_granting(state: SessionState, id: u8, size: usize)
    requires
        !state.granted.contains(id),
        !state.pending.contains(id),
        state.usage.segment_count < usize::MAX,
        state.usage.total_memory + size <= usize::MAX,
    ensures
        state.with_segment(id, size).without_segment(id, size) == state,
{
    let back = state.with_segment(id, size).without_segment(id, size);
    assert(back.granted =~= state.granted);
    assert(back.pending =~= state.pending);
}

/// Granting a segment twice counts it once.
pub proof fn law_granting_again_changes_nothing(
    state: SessionState,
    id: u8,
    size: usize,
    other_size: usize,
)
    ensures
        state.with_segment(id, size).with_segment(id, other_size) == state.with_segment(id, size),
{
}

/// Usage is counted by the port's own type, one up or one down, never below zero, and leaves all
/// other counters.
pub proof fn law_ports_are_counted_by_type(usage: SessionResourceUsage)
    ensures
        usage.publisher_count < usize::MAX ==> usage.with_port(PortType::Publisher) == (
        SessionResourceUsage {
            publisher_count: (usage.publisher_count + 1) as usize,
            ..usage
        }),
        usage.subscriber_count < usize::MAX ==> usage.with_port(PortType::Subscriber) == (
        SessionResourceUsage {
            subscriber_count: (usage.subscriber_count + 1) as usize,
            ..usage
        }),
        usage.server_count < usize::MAX ==> usage.with_port(PortType::Server) == (
        SessionResourceUsage { server_count: (usage.server_count + 1) as usize, ..usage }),
        usage.client_count < usize::MAX ==> usage.with_port(PortType::Client) == (
        SessionResourceUsage { client_count: (usage.client_count + 1) as usize, ..usage }),
        usage.publisher_count > 0 ==> usage.without_port(PortType::Publisher) == (
        SessionResourceUsage {
            publisher_count: (usage.publisher_count - 1) as usize,
            ..usage
        }),
        usage.subscriber_count > 0 ==> usage.without_port(PortType::Subscriber) == (
        SessionResourceUsage {
            subscriber_count: (usage.subscriber_count - 1) as usize,
            ..usage
        }),
        usage.server_count > 0 ==> usage.without_port(PortType::Server) == (
        SessionResourceUsage { server_count: (usage.server_count - 1) as usize, ..usage }),
        usage.client_count > 0 ==> usage.without_port(PortType::Client) == (
        SessionResourceUsage { client_count: (usage.client_count - 1) as usize, ..usage }),
        usage.publisher_count == 0 ==> usage.without_port(PortType::Publisher) == usage,
        usage.subscriber_count == 0 ==> usage.without_port(PortType::Subscriber) == usage,
        usage.server_count == 0 ==> usage.without_port(PortType::Server) == usage,
        usage.client_count == 0 ==> usage.without_port(PortType::Client) == usage,
        usage.ports(PortType::Publisher) == usage.publisher_count,
        usage.ports(PortType::Subscriber) == usage.subscriber_count,
        usage.ports(PortType::Server) == usage.server_count,
        usage.ports(PortType::Client) == usage.client_count,
        SessionResourceUsage::zero() == (SessionResourceUsage {
            publisher_count: 0,
            subscriber_count: 0,
            server_count: 0,
            client_count: 0,
            segment_count: 0,
            total_memory: 0,
        }),
{
}

/// A segment counts one and its size, up and down; memory stops at the largest number, and neither
/// count goes below zero. Ports are left.
pub proof fn law_segments_are_counted(usage: SessionResourceUsage, size: usize)
    ensures
        ({
            let more = usage.with_segment(size);
            &&& usage.segment_count < usize::MAX ==> more.segment_count == usage.segment_count + 1
            &&& usage.total_memory + size <= usize::MAX ==> more.total_memory == usage.total_memory
                + size
            &&& usage.total_memory + size > usize::MAX ==> more.total_memory == usize::MAX
            &&& more == (SessionResourceUsage {
                segment_count: more.segment_count,
                total_memory: more.total_memory,
                ..usage
            })
        }),
        ({
            let less = usage.without_segment(size);
            &&& usage.segment_count > 0 ==> less.segment_count == usage.segment_count - 1
            &&& usage.segment_count == 0 ==> less.segment_count == 0
            &&& usage.total_memory >= size ==> less.total_memory == usage.total_memory - size
            &&& usage.total_memory < size ==> less.total_memory == 0
            &&& less == (SessionResourceUsage {
                segment_count: less.segment_count,
                total_memory: less.total_memory,
                ..usage
            })
        }),
{
}

/// A port is attached once: a new one comes last and is counted by its type, one that is attached
/// already changes nothing. Detaching takes the first port of the number, and no other.
pub proof fn law_ports_are_listed(
    state: SessionState,
    port_id: u128,
    port_type: PortType,
    i: int,
)
    ensures
        (forall|j: int| 0 <= j < state.ports.len() ==> (#[trigger] state.ports[j]).port_id != port_id)
            ==> {
            &&& state.with_port(port_id, port_type) == (SessionState {
                ports: state.ports.push(PortInfo { port_id, port_type }),
                usage: state.usage.with_port(port_type),
                ..state
            })
            &&& state.without_port(port_id) == state
            &&& type_of(state.ports, port_id) is None
        },
        0 <= i < state.ports.len() && state.ports[i].port_id == port_id && (forall|j: int|
            0 <= j < i ==> (#[trigger] state.ports[j]).port_id != port_id) ==> {
            &&& state.with_port(port_id, port_type) == state
            &&& state.without_port(port_id) == (SessionState {
                ports: state.ports.remove(i),
                usage: state.usage.without_port(state.ports[i].port_type),
                ..state
            })
            &&& type_of(state.ports, port_id) == Some(state.ports[i].port_type)
        },
{
    if 0 <= i < state.ports.len() && state.ports[i].port_id == port_id && (forall|j: int|
        0 <= j < i ==> (#[trigger] state.ports[j]).port_id != port_id) {
        assert(attached(state.ports, port_id));
        lemma_position(state.ports, port_id);
        let p = position(state.ports, port_id);
        if p < i {
            assert(state.ports[p].port_id != port_id);
        }
        assert(p == i);
    }
}

/// Access to a segment is granted once and counts its size; when it is revoked it counts no more, and
/// need not be acknowledged. What is not granted cannot be revoked.
pub proof fn law_segments_are_granted(state: SessionState, id: u8, size: usize)
    ensures
        !state.granted.contains(id) ==> {
            &&& state.with_segment(id, size) == (SessionState {
                granted: state.granted.insert(id),
                usage: state.usage.with_segment(size),
                ..state
            })
            &&& state.without_segment(id, size) == state
        },
        state.granted.contains(id) ==> {
            &&& state.with_segment(id, size) == state
            &&& state.without_segment(id, size) == (SessionState {
                granted: state.granted.remove(id),
                pending: state.pending.remove(id),
                usage: state.usage.without_segment(size),
                ..state
            })
        },
{
}

proof fn lemma_ascending(set: Set<u8>, n: int)
    requires
        0 <= n <= 256,
    ensures
        ({
            let list = ascending(set, n);
            &&& forall|id: u8| (#[trigger] list.contains(SegmentId { value: id })) <==> set.contains(id)
                && id < n
            &&& forall|i: int, j: int|
                0 <= i < j < list.len() ==> (#[trigger] list[i]).value < (#[trigger] list[j]).value
        }),
    decreases n,
{
    if n > 0 {
        lemma_ascending(set, n - 1);
        let rest = ascending(set, n - 1);
        let list = ascending(set, n);
        let last = (n - 1) as u8;
        assert forall|id: u8| (#[trigger] list.contains(SegmentId { value: id })) <==> set.contains(id)
            && id < n by {
            if set.contains(id) && id < n {
                if id < n - 1 {
                    assert(rest.contains(SegmentId { value: id }));
                    let k = choose|k: int| 0 <= k < rest.len() && rest[k] == (SegmentId {
                        value: id,
                    });
                    assert(list[k] == (SegmentId { value: id }));
                } else {
                    assert(list[list.len() - 1] == (SegmentId { value: id }));
                }
            }
            if list.contains(SegmentId { value: id }) {
                let k = choose|k: int| 0 <= k < list.len() && list[k] == (SegmentId { value: id });
                if k < rest.len() {
                    assert(rest[k] == (SegmentId { value: id }));
                    assert(rest.contains(SegmentId { value: id }));
                }
            }
        }
        assert forall|i: int, j: int| 0 <= i < j < list.len() implies (#[trigger] list[i]).value < (
        #[trigger] list[j]).value by {
            assert(list[i] == rest[i]);
            assert(rest.contains(rest[i]));
            assert(rest[i] == (SegmentId { value: rest[i].value }));
            if j < rest.len() {
                assert(list[j] == rest[j]);
            }
        }
    }
}

/// The segments of a session are listed by ascending identifier, each of them once and no other.
pub proof fn law_segments_are_listed(set: Set<u8>, id: u8, i: int, j: int)
    ensures
        ({
            let list = ascending(set, 256);
            &&& list.contains(SegmentId { value: id }) <==> set.contains(id)
            &&& 0 <= i < j < list.len() ==> list[i].value < list[j].value
        }),
{
    lemma_ascending(set, 256);
}

} // verus!
