//! Segment lifecycle management for the server.
//!
//! A segment is registered with the handle by which it is shared, sessions are authorized for
//! it, and in the end it is retired: no session is authorized any more, and when every
//! authorized session has acknowledged, the segment goes.
//!
//! Duplicating a handle is the operating system's work. The operations that hand a duplicate
//! out take it, or the lack of it, as an argument.

use std::collections::{BTreeMap, BTreeSet};
use vstd::prelude::*;
use crate::collections::{keys_of, views};
use crate::error::IamServerError;
use crate::protocol::{SegmentInfo, SessionId};
use crate::types::{AccessRights, SegmentId};

verus! {

broadcast use {
    vstd::laws_cmp::group_laws_cmp,
    vstd::std_specs::btree::group_btree_axioms,
    crate::collections::group_views,
};

/// Marks a gap in a port's list of segments. No segment gets this identifier.
pub const GAP_SEGMENT: u8 = 255;

/// The index of a port's initial dynamic segment. No segment gets this identifier.
pub const INITIAL_SEGMENT: u8 = 0;

/// What is known of one segment.
#[verifier::ext_equal]
pub struct SegmentState<H> {
    /// The identifier of the segment.
    pub id: SegmentId,
    /// The handle by which the segment is shared.
    pub handle: H,
    /// The size of the segment in bytes.
    pub size: usize,
    /// The access rights that come with the segment.
    pub access: AccessRights,
    /// The sessions that may access the segment.
    pub authorized: Set<u64>,
    /// Whether the segment is being retired.
    pub retiring: bool,
    /// The sessions that still have to acknowledge the retirement.
    pub pending: Set<u64>,
}

impl<H> SegmentState<H> {
    /// A segment that no session may access yet.
    pub open spec fn fresh(id: SegmentId, handle: H, size: usize, access: AccessRights) -> Self {
        SegmentState {
            id,
            handle,
            size,
            access,
            authorized: Set::empty(),
            retiring: false,
            pending: Set::empty(),
        }
    }

    /// What clients are told of the segment.
    pub open spec fn info(self) -> SegmentInfo {
        SegmentInfo { segment_id: self.id, size: self.size, access: self.access }
    }

    /// The segment once a session may access it.
    pub open spec fn with_session(self, session: u64) -> Self {
        SegmentState { authorized: self.authorized.insert(session), ..self }
    }

    /// The segment once a session may not access it any more.
    pub open spec fn without_session(self, session: u64) -> Self {
        SegmentState {
            authorized: self.authorized.remove(session),
            pending: self.pending.remove(session),
            ..self
        }
    }

    /// The segment once its retirement began.
    pub open spec fn retired(self) -> Self {
        if self.retiring {
            self
        } else {
            SegmentState { retiring: true, pending: self.authorized, ..self }
        }
    }

    /// The segment once a session has acknowledged its retirement.
    pub open spec fn acknowledged(self, session: u64) -> Self {
        SegmentState { pending: self.pending.remove(session), ..self }
    }
}

/// State of a managed shared memory segment.
#[derive(Debug)]
pub struct ManagedSegment<H> {
    id: SegmentId,
    handle: H,
    size: usize,
    access: AccessRights,
    authorized_sessions: BTreeSet<u64>,
    retiring: bool,
    pending_acks: BTreeSet<u64>,
}

impl<H> View for ManagedSegment<H> {
    type V = SegmentState<H>;

    closed spec fn view(&self) -> SegmentState<H> {
        SegmentState {
            id: self.id,
            handle: self.handle,
            size: self.size,
            access: self.access,
            authorized: self.authorized_sessions@,
            retiring: self.retiring,
            pending: self.pending_acks@,
        }
    }
}

impl<H> ManagedSegment<H> {
    /// Creates a segment in the active state with no authorized sessions.
    pub fn new(id: SegmentId, handle: H, size: usize, access: AccessRights) -> (segment: Self)
        ensures
            segment@ == SegmentState::fresh(id, handle, size, access),
    {
        ManagedSegment {
            id,
            handle,
            size,
            access,
            authorized_sessions: BTreeSet::new(),
            retiring: false,
            pending_acks: BTreeSet::new(),
        }
    }

    /// Returns the segment identifier.
    pub fn id(&self) -> (id: SegmentId)
        ensures
            id == self@.id,
    {
        self.id
    }

    /// Returns a reference to the platform handle.
    pub fn handle(&self) -> (handle: &H)
        ensures
            *handle == self@.handle,
    {
        &self.handle
    }

    /// Returns the size of the segment in bytes.
    pub fn size(&self) -> (size: usize)
        ensures
            size == self@.size,
    {
        self.size
    }

    /// Returns the access rights for this segment.
    pub fn access(&self) -> (access: AccessRights)
        ensures
            access == self@.access,
    {
        self.access
    }

    /// Returns `true` if the segment is being retired.
    pub fn is_retiring(&self) -> (retiring: bool)
        ensures
            retiring == self@.retiring,
    {
        self.retiring
    }

    /// Returns the number of authorized sessions.
    pub fn authorized_session_count(&self) -> (count: usize)
        ensures
            count == self@.authorized.len(),
    {
        self.authorized_sessions.len()
    }

    /// Returns the number of pending retirement acknowledgments.
    pub fn pending_ack_count(&self) -> (count: usize)
        ensures
            count == self@.pending.len(),
    {
        self.pending_acks.len()
    }

    /// Converts this segment to a [`SegmentInfo`] for protocol messages.
    pub fn to_segment_info(&self) -> (info: SegmentInfo)
        ensures
            info == self@.info(),
    {
        SegmentInfo::new(self.id, self.size, self.access)
    }
}

/// How far a scan that goes up from one identifier, and from the last on to the first, has to
/// go to reach another.
pub open spec fn distance(from: u8, to: u8) -> int {
    if from <= to {
        to - from
    } else {
        256 + to - from
    }
}

/// The identifier after another; the first after the last.
pub open spec fn successor(id: u8) -> u8 {
    if id == 255 {
        0
    } else {
        (id + 1) as u8
    }
}

/// A port's list of segments once a segment stands at an index. Gaps that open below it are
/// marked.
pub open spec fn placed(list: Seq<SegmentId>, index: u8, id: SegmentId) -> Seq<SegmentId> {
    Seq::new(
        if list.len() <= index {
            index as nat + 1
        } else {
            list.len()
        },
        |i: int|
            if i == index {
                id
            } else if i < list.len() {
                list[i]
            } else {
                SegmentId { value: GAP_SEGMENT }
            },
    )
}

/// What the segments below `n` that a condition picks are told of, in the order of their
/// identifiers.
pub open spec fn infos_below<H>(
    segments: Map<u8, SegmentState<H>>,
    keep: spec_fn(SegmentState<H>) -> bool,
    n: int,
) -> Seq<SegmentInfo>
    decreases n,
{
    if n <= 0 {
        Seq::empty()
    } else {
        let rest = infos_below(segments, keep, n - 1);
        let key = (n - 1) as u8;
        if segments.contains_key(key) && keep(segments[key]) {
            rest.push(segments[key].info())
        } else {
            rest
        }
    }
}

/// The segments below `n` that a condition picks, in the order of their identifiers.
pub open spec fn picked_below<H>(
    segments: Map<u8, SegmentState<H>>,
    keep: spec_fn(SegmentState<H>) -> bool,
    n: int,
) -> Seq<SegmentState<H>>
    decreases n,
{
    if n <= 0 {
        Seq::empty()
    } else {
        let rest = picked_below(segments, keep, n - 1);
        let key = (n - 1) as u8;
        if segments.contains_key(key) && keep(segments[key]) {
            rest.push(segments[key])
        } else {
            rest
        }
    }
}

/// The identifiers of the segments below `n`, in their order.
pub open spec fn ids_below<H>(segments: Map<u8, SegmentState<H>>, n: int) -> Seq<SegmentId>
    decreases n,
{
    if n <= 0 {
        Seq::empty()
    } else {
        let rest = ids_below(segments, n - 1);
        let key = (n - 1) as u8;
        if segments.contains_key(key) {
            rest.push(segments[key].id)
        } else {
            rest
        }
    }
}

/// All that a segment manager knows.
#[verifier::ext_equal]
pub struct SegmentTable<H> {
    /// The data segments by identifier.
    pub segments: Map<u8, SegmentState<H>>,
    /// The data segments that each producer port has registered.
    pub port_segments: Map<u128, Seq<SegmentId>>,
    /// The connection channels by sender and receiver port.
    pub channels: Map<(u128, u128), SegmentState<H>>,
    /// The management segments by producer port.
    pub mgmt_segments: Map<u128, SegmentState<H>>,
    /// Where the scan for a free identifier goes on.
    pub next_id: u8,
}

impl<H> SegmentTable<H> {
    /// The table without a segment.
    pub open spec fn empty() -> Self {
        SegmentTable {
            segments: Map::empty(),
            port_segments: Map::empty(),
            channels: Map::empty(),
            mgmt_segments: Map::empty(),
            next_id: 0,
        }
    }

    /// Whether an identifier can be given to a new segment: it is not reserved and not in use.
    pub open spec fn usable(self, id: u8) -> bool {
        id != GAP_SEGMENT && id != INITIAL_SEGMENT && !self.segments.contains_key(id)
    }

    /// Whether an identifier is the one to give out next: the usable one that the scan reaches
    /// first.
    pub open spec fn is_next_free(self, id: u8) -> bool {
        &&& self.usable(id)
        &&& forall|other: u8| #[trigger]
            self.usable(other) ==> distance(self.next_id, id) <= distance(self.next_id, other)
    }

    /// The identifier to give out next.
    pub open spec fn next_free(self) -> Option<u8> {
        if exists|id: u8| self.is_next_free(id) {
            Some(choose|id: u8| self.is_next_free(id))
        } else {
            None
        }
    }

    /// Whether no identifier can be given out.
    pub open spec fn exhausted(self) -> bool {
        forall|id: u8| !(#[trigger] self.usable(id))
    }

    /// The table once an identifier was given out.
    pub open spec fn scanned_past(self, id: u8) -> Self {
        SegmentTable { next_id: successor(id), ..self }
    }

    /// The table once a segment is registered.
    pub open spec fn with_segment(
        self,
        id: SegmentId,
        handle: H,
        size: usize,
        access: AccessRights,
    ) -> Self {
        SegmentTable {
            segments: self.segments.insert(
                id.value,
                SegmentState::fresh(id, handle, size, access),
            ),
            ..self
        }
    }

    /// The segments of a port; none for a port that has registered none.
    pub open spec fn segments_of(self, port: u128) -> Seq<SegmentId> {
        if self.port_segments.contains_key(port) {
            self.port_segments[port]
        } else {
            Seq::empty()
        }
    }

    /// The table once a segment is the last of a port.
    pub open spec fn with_last_of_port(self, port: u128, id: SegmentId) -> Self {
        SegmentTable {
            port_segments: self.port_segments.insert(port, self.segments_of(port).push(id)),
            ..self
        }
    }

    /// The table once a segment stands at an index of a port.
    pub open spec fn with_placed(self, port: u128, index: u8, id: SegmentId) -> Self {
        SegmentTable {
            port_segments: self.port_segments.insert(
                port,
                placed(self.segments_of(port), index, id),
            ),
            ..self
        }
    }

    /// The table without a segment.
    pub open spec fn without_segment(self, id: SegmentId) -> Self {
        SegmentTable {
            segments: self.segments.remove(id.value),
            port_segments: self.port_segments.map_values(
                |list: Seq<SegmentId>| list.filter(|other: SegmentId| other.value != id.value),
            ),
            ..self
        }
    }

    /// Whether a port has registered a segment under an identifier.
    pub open spec fn registered_by(self, port: u128, id: u8) -> bool {
        id != GAP_SEGMENT && self.segments_of(port).contains(SegmentId { value: id })
    }

    /// The table without the data segments of a port.
    pub open spec fn without_port_segments(self, port: u128) -> Self {
        SegmentTable {
            segments: self.segments.remove_keys(Set::new(|id: u8| self.registered_by(port, id))),
            port_segments: self.port_segments.remove(port),
            ..self
        }
    }

    /// The table without the channels over which a port sends.
    pub open spec fn without_sender(self, port: u128) -> Self {
        SegmentTable {
            channels: self.channels.remove_keys(Set::new(|key: (u128, u128)| key.0 == port)),
            ..self
        }
    }

    /// The table without the channels over which a port receives.
    pub open spec fn without_receiver(self, port: u128) -> Self {
        SegmentTable {
            channels: self.channels.remove_keys(Set::new(|key: (u128, u128)| key.1 == port)),
            ..self
        }
    }

    /// The table without the management segment of a port.
    pub open spec fn without_mgmt(self, port: u128) -> Self {
        SegmentTable { mgmt_segments: self.mgmt_segments.remove(port), ..self }
    }

    /// The table once everything that a port has registered, and every channel that ends at it,
    /// is gone.
    pub open spec fn without_port(self, port: u128) -> Self {
        self.without_port_segments(port).without_mgmt(port).without_sender(port).without_receiver(
            port,
        )
    }

    /// Whether sessions can be authorized for a segment.
    pub open spec fn grantable(self, id: u8) -> bool {
        self.segments.contains_key(id) && !self.segments[id].retiring
    }

    /// The table once a session is authorized for a segment.
    pub open spec fn with_session(self, id: u8, session: u64) -> Self {
        SegmentTable {
            segments: self.segments.insert(id, self.segments[id].with_session(session)),
            ..self
        }
    }

    /// The table once a session is authorized for no data segment.
    pub open spec fn without_session(self, session: u64) -> Self {
        SegmentTable {
            segments: self.segments.map_values(
                |state: SegmentState<H>| state.without_session(session),
            ),
            ..self
        }
    }

    /// The first segment of a port.
    pub open spec fn first_of_port(self, port: u128) -> Option<u8> {
        if self.segments_of(port).len() > 0 {
            Some(self.segments_of(port)[0].value)
        } else {
            None
        }
    }

    /// The segment at an index of a port; none where the index is a gap.
    pub open spec fn at_index_of_port(self, port: u128, index: u8) -> Option<u8> {
        if index < self.segments_of(port).len() && self.segments_of(port)[index as int].value
            != GAP_SEGMENT {
            Some(self.segments_of(port)[index as int].value)
        } else {
            None
        }
    }

    /// The handle that a session which asks for a segment is to get a duplicate of.
    pub open spec fn grant_of(self, id: Option<u8>) -> Option<H> {
        match id {
            Some(id) => if self.grantable(id) {
                Some(self.segments[id].handle)
            } else {
                None
            },
            None => None,
        }
    }
}

/// Manages the lifecycle of shared memory segments.
///
/// Data segments have identifiers of their own; connection channels and management segments
/// are found by the ports they belong to.
#[derive(Debug)]
pub struct SegmentManager<H> {
    segments: BTreeMap<u8, ManagedSegment<H>>,
    port_segments: BTreeMap<u128, Vec<SegmentId>>,
    channels: BTreeMap<(u128, u128), ManagedSegment<H>>,
    mgmt_segments: BTreeMap<u128, ManagedSegment<H>>,
    next_id: u8,
}

impl<H> View for SegmentManager<H> {
    type V = SegmentTable<H>;

    closed spec fn view(&self) -> SegmentTable<H> {
        SegmentTable {
            segments: views(self.segments@),
            port_segments: views(self.port_segments@),
            channels: views(self.channels@),
            mgmt_segments: views(self.mgmt_segments@),
            next_id: self.next_id,
        }
    }
}

impl<H> Default for SegmentManager<H> {
    fn default() -> (manager: Self)
        ensures
            manager@ == SegmentTable::<H>::empty(),
    {
        SegmentManager::new()
    }
}

impl<H> SegmentManager<H> {
    /// Creates a new empty segment manager.
    pub fn new() -> (manager: Self)
        ensures
            manager@ == SegmentTable::<H>::empty(),
    {
        SegmentManager {
            segments: BTreeMap::new(),
            port_segments: BTreeMap::new(),
            channels: BTreeMap::new(),
            mgmt_segments: BTreeMap::new(),
            next_id: 0,
        }
    }

    /// Returns the number of managed segments.
    pub fn segment_count(&self) -> (count: usize)
        ensures
            count == self@.segments.len(),
    {
        self.segments.len()
    }

    /// Checks if a segment exists.
    pub fn has_segment(&self, segment_id: SegmentId) -> (exists: bool)
        ensures
            exists == self@.segments.contains_key(segment_id.value),
    {
        self.segments.contains_key(&segment_id.value)
    }

    /// Gets a reference to a managed segment.
    pub fn get(&self, segment_id: SegmentId) -> (segment: Option<&ManagedSegment<H>>)
        ensures
            segment matches Some(found) ==> self@.segments.contains_key(segment_id.value)
                && found@ == self@.segments[segment_id.value],
            segment is None ==> !self@.segments.contains_key(segment_id.value),
    {
        self.segments.get(&segment_id.value)
    }

    /// Returns all segment IDs in ascending order.
    pub fn segment_ids(&self) -> (ids: Vec<SegmentId>)
        ensures
            ids@ == ids_below(self@.segments, 256),
    {
        let mut ids: Vec<SegmentId> = Vec::new();
        let mut next: usize = 0;
        while next < 256
            invariant
                next <= 256,
                ids@ == ids_below(self@.segments, next as int),
            decreases 256 - next,
        {
            let key: u8 = next as u8;
            if let Some(segment) = self.segments.get(&key) {
                ids.push(segment.id);
            }
            next += 1;
        }
        ids
    }

    /// Allocates the next available segment ID.
    ///
    /// The identifiers 0 and 255 are reserved and never handed out: 255 marks gaps in a port's
    /// list, 0 is the index of each port's initial dynamic segment. The scan goes on where the
    /// last one stopped; when it finds every identifier in use, the error is
    /// [`IamServerError::ResourceLimitExceeded`].
    pub fn allocate_segment_id(&mut self) -> (result: Result<SegmentId, IamServerError>)
        ensures
            match result {
                Ok(id) => old(self)@.is_next_free(id.value) && final(self)@ == old(self)@.scanned_past(id.value),
                Err(error) => error == IamServerError::ResourceLimitExceeded && old(self)@.exhausted() && final(self)@ == old(self)@,
            },
    {
        let start: u8 = self.next_id;
        let ghost table = self@;
        let ghost mut steps: int = 0;
        loop
            invariant
                table == old(self)@,
                start == table.next_id,
                0 <= steps < 256,
                self@ == (SegmentTable { next_id: self.next_id, ..table }),
                distance(start, self.next_id) == steps,
                forall|id: u8| distance(start, id) < steps ==> !(#[trigger] table.usable(id)),
            decreases 256 - steps,
        {
            let candidate: u8 = self.next_id;
            self.next_id = candidate.wrapping_add(1);
            if candidate != GAP_SEGMENT && candidate != INITIAL_SEGMENT
                && !self.segments.contains_key(&candidate) {
                assert(table.usable(candidate));
                return Ok(SegmentId::new(candidate));
            }
            assert(!table.usable(candidate));
            if self.next_id == start {
                return Err(IamServerError::ResourceLimitExceeded);
            }
            proof {
                steps = steps + 1;
            }
        }
    }

    /// Registers a segment with an existing handle and returns the ID assigned to it.
    ///
    /// A size of zero is [`IamServerError::InvalidSegmentSize`]; without a free identifier the
    /// error is [`IamServerError::ResourceLimitExceeded`].
    pub fn register_segment(
        &mut self,
        handle: H,
        size: usize,
        access: AccessRights,
    ) -> (result: Result<SegmentId, IamServerError>)
        ensures
            registration(old(self)@, size, result),
            match result {
                Ok(id) => final(self)@ == old(self)@.scanned_past(id.value).with_segment(
                    id,
                    handle,
                    size,
                    access,
                ),
                Err(_) => final(self)@ == old(self)@,
            },
    {
        if size == 0 {
            return Err(IamServerError::InvalidSegmentSize);
        }
        match self.allocate_segment_id() {
            Ok(segment_id) => {
                let segment = ManagedSegment::new(segment_id, handle, size, access);
                self.segments.insert(segment_id.value, segment);
                Ok(segment_id)
            },
            Err(error) => Err(error),
        }
    }

    /// Registers a segment with a pre-allocated ID and existing handle.
    ///
    /// A size of zero is [`IamServerError::InvalidSegmentSize`].
    pub fn register_segment_with_id(
        &mut self,
        segment_id: SegmentId,
        handle: H,
        size: usize,
        access: AccessRights,
    ) -> (result: Result<(), IamServerError>)
        ensures
            match result {
                Ok(()) => size != 0 && final(self)@ == old(self)@.with_segment(
                    segment_id,
                    handle,
                    size,
                    access,
                ),
                Err(error) => size == 0 && error == IamServerError::InvalidSegmentSize && final(self)@ == old(self)@,
            },
    {
        if size == 0 {
            return Err(IamServerError::InvalidSegmentSize);
        }
        let segment = ManagedSegment::new(segment_id, handle, size, access);
        self.segments.insert(segment_id.value, segment);
        Ok(())
    }

    /// Takes the list of a port out of the table.
    fn take_port_segments(&mut self, port_id: u128) -> (list: Vec<SegmentId>)
        ensures
            list@ == old(self)@.segments_of(port_id),
            final(self)@ == (SegmentTable {
                port_segments: old(self)@.port_segments.remove(port_id),
                ..old(self)@
            }),
    {
        match self.port_segments.remove(&port_id) {
            Some(list) => list,
            None => Vec::new(),
        }
    }

    /// Puts a segment behind the others of a port.
    fn push_port_segment(&mut self, port_id: u128, segment_id: SegmentId)
        ensures
            final(self)@ == old(self)@.with_last_of_port(port_id, segment_id),
    {
        let mut list = self.take_port_segments(port_id);
        list.push(segment_id);
        self.port_segments.insert(port_id, list);
        assert(self@.port_segments =~= old(self)@.with_last_of_port(
            port_id,
            segment_id,
        ).port_segments);
    }

    /// Puts a segment at an index of a port.
    fn place_port_segment(&mut self, port_id: u128, index: u8, segment_id: SegmentId)
        ensures
            final(self)@ == old(self)@.with_placed(port_id, index, segment_id),
    {
        let mut list = self.take_port_segments(port_id);
        let ghost before = list@;
        let target: usize = index as usize;
        while list.len() <= target
            invariant
                target == index,
                before.len() <= list@.len(),
                list@.len() <= before.len() || list@.len() <= target + 1,
                forall|i: int|
                    0 <= i < list@.len() ==> #[trigger] list@[i] == (if i < before.len() {
                        before[i]
                    } else if i == target {
                        segment_id
                    } else {
                        SegmentId { value: GAP_SEGMENT }
                    }),
            decreases target + 1 - list@.len(),
        {
            if list.len() == target {
                list.push(segment_id);
            } else {
                list.push(SegmentId::new(GAP_SEGMENT));
            }
        }
        list.set(target, segment_id);
        assert(list@ =~= placed(before, index, segment_id));
        self.port_segments.insert(port_id, list);
        assert(self@.port_segments =~= old(self)@.with_placed(
            port_id,
            index,
            segment_id,
        ).port_segments);
    }

    /// Associates a segment with a producer port, behind the port's other segments.
    ///
    /// A segment that does not exist is [`IamServerError::SegmentNotFound`].
    pub fn associate_segment_with_port(
        &mut self,
        segment_id: SegmentId,
        port_id: u128,
    ) -> (result: Result<(), IamServerError>)
        ensures
            match result {
                Ok(()) => old(self)@.segments.contains_key(segment_id.value) && final(self)@
                    == old(self)@.with_last_of_port(port_id, segment_id),
                Err(error) => !old(self)@.segments.contains_key(segment_id.value) && error
                    == IamServerError::SegmentNotFound && final(self)@ == old(self)@,
            },
    {
        if !self.segments.contains_key(&segment_id.value) {
            return Err(IamServerError::SegmentNotFound);
        }
        self.push_port_segment(port_id, segment_id);
        Ok(())
    }

    /// Associates a segment with a producer port at an explicit index within the port's list.
    ///
    /// Producers stamp the number of a segment into every offset that they hand out, and
    /// consumers ask for the handle by that number. Placing the segment at that index keeps the
    /// lookup right whatever order the segments came in. Gaps are filled with the gap marker.
    ///
    /// A segment that does not exist is [`IamServerError::SegmentNotFound`].
    pub fn associate_segment_with_port_at_index(
        &mut self,
        segment_id: SegmentId,
        port_id: u128,
        index: u8,
    ) -> (result: Result<(), IamServerError>)
        ensures
            match result {
                Ok(()) => old(self)@.segments.contains_key(segment_id.value) && final(self)@
                    == old(self)@.with_placed(port_id, index, segment_id),
                Err(error) => !old(self)@.segments.contains_key(segment_id.value) && error
                    == IamServerError::SegmentNotFound && final(self)@ == old(self)@,
            },
    {
        if !self.segments.contains_key(&segment_id.value) {
            return Err(IamServerError::SegmentNotFound);
        }
        self.place_port_segment(port_id, index, segment_id);
        Ok(())
    }

    /// Registers a segment and associates it with a producer port.
    pub fn register_segment_for_port(
        &mut self,
        port_id: u128,
        handle: H,
        size: usize,
        access: AccessRights,
    ) -> (result: Result<SegmentId, IamServerError>)
        ensures
            registration(old(self)@, size, result),
            match result {
                Ok(id) => final(self)@ == old(self)@.scanned_past(id.value).with_segment(
                    id,
                    handle,
                    size,
                    access,
                ).with_last_of_port(port_id, id),
                Err(_) => final(self)@ == old(self)@,
            },
    {
        match self.register_segment(handle, size, access) {
            Ok(segment_id) => {
                self.push_port_segment(port_id, segment_id);
                Ok(segment_id)
            },
            Err(error) => Err(error),
        }
    }

    /// Registers a dynamic segment at a specific index for a port.
    pub fn register_dynamic_segment_for_port(
        &mut self,
        port_id: u128,
        segment_index: u8,
        handle: H,
        size: usize,
        access: AccessRights,
    ) -> (result: Result<SegmentId, IamServerError>)
        ensures
            registration(old(self)@, size, result),
            match result {
                Ok(id) => final(self)@ == old(self)@.scanned_past(id.value).with_segment(
                    id,
                    handle,
                    size,
                    access,
                ).with_placed(port_id, segment_index, id),
                Err(_) => final(self)@ == old(self)@,
            },
    {
        match self.register_segment(handle, size, access) {
            Ok(segment_id) => {
                self.place_port_segment(port_id, segment_index, segment_id);
                Ok(segment_id)
            },
            Err(error) => Err(error),
        }
    }
}

/// When the registration of a segment of a given size gives it an identifier, and when it is
/// refused.
pub open spec fn registration<H>(
    table: SegmentTable<H>,
    size: usize,
    result: Result<SegmentId, IamServerError>,
) -> bool {
    match result {
        Ok(id) => size != 0 && table.is_next_free(id.value),
        Err(error) => if size == 0 {
            error == IamServerError::InvalidSegmentSize
        } else {
            error == IamServerError::ResourceLimitExceeded && table.exhausted()
        },
    }
}

/// Returns a list without a segment.
fn list_without(list: &Vec<SegmentId>, segment_id: SegmentId) -> (rest: Vec<SegmentId>)
    ensures
        rest@ == list@.filter(|other: SegmentId| other.value != segment_id.value),
{
    let ghost keep = |other: SegmentId| other.value != segment_id.value;
    let mut rest: Vec<SegmentId> = Vec::new();
    let mut i: usize = 0;
    while i < list.len()
        invariant
            i <= list@.len(),
            keep == (|other: SegmentId| other.value != segment_id.value),
            rest@ == list@.take(i as int).filter(keep),
        decreases list@.len() - i,
    {
        proof {
            reveal(Seq::filter);
            assert(list@.take(i + 1).drop_last() =~= list@.take(i as int));
        }
        if list[i].value != segment_id.value {
            rest.push(list[i]);
        }
        i += 1;
    }
    assert(list@.take(i as int) =~= list@);
    rest
}

impl<H> SegmentManager<H> {
    /// Removes a segment without the retirement protocol and returns it if it existed.
    ///
    /// The segment disappears from the lists of all ports.
    pub fn remove_segment(&mut self, segment_id: SegmentId) -> (removed: Option<ManagedSegment<H>>)
        ensures
            final(self)@ == old(self)@.without_segment(segment_id),
            removed matches Some(segment) ==> old(self)@.segments.contains_key(segment_id.value)
                && segment@ == old(self)@.segments[segment_id.value],
            removed is None ==> !old(self)@.segments.contains_key(segment_id.value),
    {
        let ghost lists = self@.port_segments;
        let ghost rest = |list: Seq<SegmentId>|
            list.filter(|other: SegmentId| other.value != segment_id.value);
        let ports = keys_of(&self.port_segments);
        let mut i: usize = 0;
        while i < ports.len()
            invariant
                i <= ports@.len(),
                ports@.no_duplicates(),
                ports@.to_set() == lists.dom(),
                self@ == (SegmentTable { port_segments: self@.port_segments, ..old(self)@ }),
                lists == old(self)@.port_segments,
                self@.port_segments.dom() == lists.dom(),
                rest == (|list: Seq<SegmentId>|
                    list.filter(|other: SegmentId| other.value != segment_id.value)),
                forall|j: int|
                    0 <= j < i ==> self@.port_segments[#[trigger] ports@[j]] == rest(
                        lists[ports@[j]],
                    ),
                forall|j: int|
                    i <= j < ports@.len() ==> self@.port_segments[#[trigger] ports@[j]]
                        == lists[ports@[j]],
            decreases ports@.len() - i,
        {
            let port: u128 = ports[i];
            assert(ports@.to_set().contains(port));
            let list = self.take_port_segments(port);
            let kept = list_without(&list, segment_id);
            self.port_segments.insert(port, kept);
            i += 1;
        }
        proof {
            assert forall|port: u128| lists.contains_key(port) implies self@.port_segments[port]
                == #[trigger] lists.map_values(rest)[port] by {
                assert(ports@.to_set().contains(port));
                let j = choose|j: int| 0 <= j < ports@.len() && ports@[j] == port;
                assert(self@.port_segments[ports@[j]] == rest(lists[ports@[j]]));
            }
            assert(self@.port_segments =~= lists.map_values(rest));
        }
        self.segments.remove(&segment_id.value)
    }

    /// Reaps all data segments registered for a producer port, and frees their identifiers.
    ///
    /// Gap markers in the port's list stand for no segment and are skipped.
    pub fn remove_all_segments_for_port(&mut self, port_id: u128)
        ensures
            final(self)@ == old(self)@.without_port_segments(port_id),
    {
        let list = self.take_port_segments(port_id);
        let ghost before = self@.segments;
        let ghost table = old(self)@;
        let mut i: usize = 0;
        while i < list.len()
            invariant
                i <= list@.len(),
                list@ == table.segments_of(port_id),
                table == old(self)@,
                before == table.segments,
                self@ == (SegmentTable {
                    port_segments: table.port_segments.remove(port_id),
                    segments: self@.segments,
                    ..table
                }),
                self@.segments == before.remove_keys(
                    Set::new(
                        |id: u8|
                            id != GAP_SEGMENT && list@.take(i as int).contains(
                                SegmentId { value: id },
                            ),
                    ),
                ),
            decreases list@.len() - i,
        {
            let id: u8 = list[i].value;
            if id != GAP_SEGMENT {
                self.segments.remove(&id);
            }
            proof {
                assert(list@.take(i + 1) =~= list@.take(i as int).push(list@[i as int]));
                let now = Set::new(
                    |id: u8|
                        id != GAP_SEGMENT && list@.take(i + 1).contains(SegmentId { value: id }),
                );
                assert forall|key: u8| #[trigger] now.contains(key) == ((key == id && id
                    != GAP_SEGMENT) || (key != GAP_SEGMENT && list@.take(i as int).contains(
                    SegmentId { value: key },
                ))) by {
                    assert(list@[i as int] == (SegmentId { value: id }));
                    if list@.take(i as int).contains(SegmentId { value: key }) {
                        let j = choose|j: int|
                            0 <= j < i && list@.take(i as int)[j] == (SegmentId { value: key });
                        assert(list@.take(i + 1)[j] == (SegmentId { value: key }));
                    }
                    if key == id {
                        assert(list@.take(i + 1)[i as int] == (SegmentId { value: key }));
                    }
                }
                assert(self@.segments =~= before.remove_keys(now));
            }
            i += 1;
        }
        proof {
            assert(list@.take(i as int) =~= list@);
            assert(Set::new(
                |id: u8|
                    id != GAP_SEGMENT && list@.take(i as int).contains(SegmentId { value: id }),
            ) =~= Set::new(|id: u8| table.registered_by(port_id, id)));
        }
    }

    /// Reaps all connection channels over which a port sends.
    pub fn remove_channels_for_sender_port(&mut self, sender_port_id: u128)
        ensures
            final(self)@ == old(self)@.without_sender(sender_port_id),
    {
        self.remove_channels_of(sender_port_id, true);
        assert(self@.channels =~= old(self)@.without_sender(sender_port_id).channels);
    }

    /// Reaps all connection channels over which a port receives.
    pub fn remove_channels_for_receiver_port(&mut self, receiver_port_id: u128)
        ensures
            final(self)@ == old(self)@.without_receiver(receiver_port_id),
    {
        self.remove_channels_of(receiver_port_id, false);
        assert(self@.channels =~= old(self)@.without_receiver(receiver_port_id).channels);
    }

    /// Reaps the connection channels that a port is one end of.
    fn remove_channels_of(&mut self, port_id: u128, sends: bool)
        ensures
            final(self)@ == (SegmentTable {
                channels: old(self)@.channels.remove_keys(
                    Set::new(
                        |key: (u128, u128)| (if sends { key.0 } else { key.1 }) == port_id,
                    ),
                ),
                ..old(self)@
            }),
    {
        let ghost all = self@.channels;
        let ghost reaped = Set::new(
            |key: (u128, u128)| (if sends { key.0 } else { key.1 }) == port_id,
        );
        let keys = keys_of(&self.channels);
        let mut i: usize = 0;
        while i < keys.len()
            invariant
                i <= keys@.len(),
                keys@.no_duplicates(),
                keys@.to_set() == all.dom(),
                all == old(self)@.channels,
                self@ == (SegmentTable { channels: self@.channels, ..old(self)@ }),
                reaped == Set::new(
                    |key: (u128, u128)| (if sends { key.0 } else { key.1 }) == port_id,
                ),
                forall|key: (u128, u128)| #[trigger]
                    self@.channels.contains_key(key) <==> all.contains_key(key) && !(
                    reaped.contains(key) && keys@.take(i as int).contains(key)),
                forall|key: (u128, u128)| #[trigger]
                    self@.channels.contains_key(key) ==> self@.channels[key] == all[key],
            decreases keys@.len() - i,
        {
            let key: (u128, u128) = keys[i];
            let end: u128 = if sends {
                key.0
            } else {
                key.1
            };
            if end == port_id {
                self.channels.remove(&key);
            }
            proof {
                assert(keys@.take(i + 1) =~= keys@.take(i as int).push(key));
                assert forall|other: (u128, u128)| #[trigger]
                    keys@.take(i + 1).contains(other) <==> other == key || keys@.take(
                    i as int,
                ).contains(other) by {
                    assert(keys@.take(i + 1)[i as int] == key);
                    if keys@.take(i as int).contains(other) {
                        let j = choose|j: int| 0 <= j < i && keys@.take(i as int)[j] == other;
                        assert(keys@.take(i + 1)[j] == other);
                    }
                }
            }
            i += 1;
        }
        proof {
            assert(keys@.take(i as int) =~= keys@);
            assert forall|key: (u128, u128)| #[trigger] all.contains_key(key) implies keys@.contains(
                key,
            ) by {
                assert(keys@.to_set().contains(key));
            }
            assert(self@.channels =~= all.remove_keys(reaped));
        }
    }

    /// Reaps the management segment registered for a port.
    pub fn remove_mgmt_segment_for_port(&mut self, port_id: u128)
        ensures
            final(self)@ == old(self)@.without_mgmt(port_id),
    {
        self.mgmt_segments.remove(&port_id);
    }
}

impl<H> SegmentManager<H> {
    /// Returns the segment IDs registered for a given port.
    pub fn get_segments_for_port(&self, port_id: u128) -> (ids: Vec<SegmentId>)
        ensures
            ids@ == self@.segments_of(port_id),
    {
        match self.port_segments.get(&port_id) {
            Some(list) => {
                let ids = list.clone();
                assert(ids@ =~= list@);
                ids
            },
            None => Vec::new(),
        }
    }

    /// Authorizes a session to access a segment and hands on a duplicate of its handle.
    ///
    /// `duplicate` is what duplicating the segment's handle gave, `None` if that failed.
    /// A segment that does not exist or is being retired is
    /// [`IamServerError::SegmentNotFound`], a handle that could not be duplicated
    /// [`IamServerError::HandlePassingFailed`].
    pub fn authorize_session(
        &mut self,
        segment_id: SegmentId,
        session_id: SessionId,
        duplicate: Option<H>,
    ) -> (result: Result<H, IamServerError>)
        ensures
            result == authorization(old(self)@.grantable(segment_id.value), duplicate),
            final(self)@ == (if result is Ok {
                old(self)@.with_session(segment_id.value, session_id.value)
            } else {
                old(self)@
            }),
    {
        let ghost table = self@;
        match self.segments.remove(&segment_id.value) {
            Some(segment) => {
                let mut segment = segment;
                let retiring = segment.retiring;
                let granted = !retiring && duplicate.is_some();
                if granted {
                    segment.authorized_sessions.insert(session_id.value);
                }
                self.segments.insert(segment_id.value, segment);
                proof {
                    if granted {
                        assert(self@.segments =~= table.with_session(
                            segment_id.value,
                            session_id.value,
                        ).segments);
                    } else {
                        assert(self@.segments =~= table.segments);
                    }
                }
                if retiring {
                    return Err(IamServerError::SegmentNotFound);
                }
                match duplicate {
                    Some(handle) => Ok(handle),
                    None => Err(IamServerError::HandlePassingFailed),
                }
            },
            None => {
                assert(self@.segments =~= table.segments);
                Err(IamServerError::SegmentNotFound)
            },
        }
    }

    /// Authorizes a session for a segment and returns what it is told of it.
    fn grant(
        &mut self,
        key: u8,
        session_id: SessionId,
        duplicate: Option<H>,
    ) -> (granted: Option<(SegmentInfo, H)>)
        ensures
            granted == grant_result(old(self)@, Some(key), duplicate),
            final(self)@ == table_after_grant(old(self)@, Some(key), session_id, duplicate),
    {
        match self.authorize_session(SegmentId::new(key), session_id, duplicate) {
            Ok(handle) => match self.segments.get(&key) {
                Some(segment) => Some(
                    (SegmentInfo::new(SegmentId::new(key), segment.size, segment.access), handle),
                ),
                None => None,
            },
            Err(_) => None,
        }
    }

    /// Returns the handle that a consumer of a port's first segment is to get a duplicate of.
    pub fn segment_handle_for_port(&self, port_id: u128) -> (handle: Option<&H>)
        ensures
            match handle {
                Some(found) => self@.grant_of(self@.first_of_port(port_id)) == Some(*found),
                None => self@.grant_of(self@.first_of_port(port_id)) is None,
            },
    {
        match self.port_segments.get(&port_id) {
            Some(list) => if list.len() > 0 {
                self.grantable_handle(list[0].value)
            } else {
                None
            },
            None => None,
        }
    }

    /// Returns the handle of a segment for which sessions can be authorized.
    fn grantable_handle(&self, key: u8) -> (handle: Option<&H>)
        ensures
            match handle {
                Some(found) => self@.grant_of(Some(key)) == Some(*found),
                None => self@.grant_of(Some(key)) is None,
            },
    {
        match self.segments.get(&key) {
            Some(segment) => if segment.retiring {
                None
            } else {
                Some(&segment.handle)
            },
            None => None,
        }
    }

    /// Retrieves a segment handle for a consumer to use.
    ///
    /// The first segment of the port is granted to the session, with `duplicate` as the handle.
    /// There is nothing to grant where the port has no segment, where that segment is being
    /// retired, or where its handle could not be duplicated.
    pub fn get_segment_handle_for_consumer(
        &mut self,
        port_id: u128,
        consumer_session_id: SessionId,
        duplicate: Option<H>,
    ) -> (granted: Option<(SegmentInfo, H)>)
        ensures
            granted == grant_result(old(self)@, old(self)@.first_of_port(port_id), duplicate),
            final(self)@ == table_after_grant(
                old(self)@,
                old(self)@.first_of_port(port_id),
                consumer_session_id,
                duplicate,
            ),
    {
        let first: Option<u8> = match self.port_segments.get(&port_id) {
            Some(list) => if list.len() > 0 {
                Some(list[0].value)
            } else {
                None
            },
            None => None,
        };
        match first {
            Some(key) => self.grant(key, consumer_session_id, duplicate),
            None => None,
        }
    }

    /// Returns the handle that a consumer of a port's segment at an index is to get a duplicate
    /// of.
    pub fn dynamic_segment_handle_for_port(
        &self,
        port_id: u128,
        segment_index: u8,
    ) -> (handle: Option<&H>)
        ensures
            match handle {
                Some(found) => self@.grant_of(self@.at_index_of_port(port_id, segment_index))
                    == Some(*found),
                None => self@.grant_of(self@.at_index_of_port(port_id, segment_index)) is None,
            },
    {
        match self.key_at_index(port_id, segment_index) {
            Some(key) => self.grantable_handle(key),
            None => None,
        }
    }

    /// Returns the segment that stands at an index of a port.
    fn key_at_index(&self, port_id: u128, segment_index: u8) -> (key: Option<u8>)
        ensures
            key == self@.at_index_of_port(port_id, segment_index),
    {
        match self.port_segments.get(&port_id) {
            Some(list) => {
                let index: usize = segment_index as usize;
                if index < list.len() {
                    let key: u8 = list[index].value;
                    if key == GAP_SEGMENT {
                        None
                    } else {
                        Some(key)
                    }
                } else {
                    None
                }
            },
            None => None,
        }
    }

    /// Retrieves a dynamic segment handle for a consumer by index.
    ///
    /// As for the first segment, but for the one at the index; there is nothing to grant at a
    /// gap.
    pub fn get_dynamic_segment_handle(
        &mut self,
        port_id: u128,
        segment_index: u8,
        consumer_session_id: SessionId,
        duplicate: Option<H>,
    ) -> (granted: Option<(SegmentInfo, H)>)
        ensures
            granted == grant_result(
                old(self)@,
                old(self)@.at_index_of_port(port_id, segment_index),
                duplicate,
            ),
            final(self)@ == table_after_grant(
                old(self)@,
                old(self)@.at_index_of_port(port_id, segment_index),
                consumer_session_id,
                duplicate,
            ),
    {
        match self.key_at_index(port_id, segment_index) {
            Some(key) => self.grant(key, consumer_session_id, duplicate),
            None => None,
        }
    }

    /// Registers a connection-channel handle for a `(sender, receiver)` port pair.
    ///
    /// The channel is shared for reading and writing: the receiver writes its completion ring.
    /// A size of zero counts as one.
    pub fn register_channel(
        &mut self,
        sender_port_id: u128,
        receiver_port_id: u128,
        handle: H,
        size: usize,
    ) -> (result: Result<(), IamServerError>)
        ensures
            result == Ok::<(), IamServerError>(()),
            final(self)@ == (SegmentTable {
                channels: old(self)@.channels.insert(
                    (sender_port_id, receiver_port_id),
                    channel_state(handle, size),
                ),
                ..old(self)@
            }),
    {
        let segment = ManagedSegment::new(
            SegmentId::new(0),
            handle,
            at_least_one(size),
            AccessRights::read_write(),
        );
        self.channels.insert((sender_port_id, receiver_port_id), segment);
        Ok(())
    }

    /// Returns the handle of the channel between two ports.
    pub fn channel_handle(
        &self,
        sender_port_id: u128,
        receiver_port_id: u128,
    ) -> (handle: Option<&H>)
        ensures
            match handle {
                Some(found) => self@.channels.contains_key((sender_port_id, receiver_port_id))
                    && *found == self@.channels[(sender_port_id, receiver_port_id)].handle,
                None => !self@.channels.contains_key((sender_port_id, receiver_port_id)),
            },
    {
        match self.channels.get(&(sender_port_id, receiver_port_id)) {
            Some(channel) => Some(&channel.handle),
            None => None,
        }
    }

    /// Retrieves a connection-channel handle for a consumer.
    ///
    /// There is nothing to hand on where the producer has not registered the channel or its
    /// handle could not be duplicated.
    pub fn get_channel_handle_for_consumer(
        &mut self,
        sender_port_id: u128,
        receiver_port_id: u128,
        consumer_session_id: SessionId,
        duplicate: Option<H>,
    ) -> (granted: Option<(SegmentInfo, H)>)
        ensures
            granted == keyed_grant(
                old(self)@.channels,
                (sender_port_id, receiver_port_id),
                duplicate,
            ),
            final(self)@ == (SegmentTable {
                channels: after_keyed_grant(
                    old(self)@.channels,
                    (sender_port_id, receiver_port_id),
                    consumer_session_id,
                    duplicate,
                ),
                ..old(self)@
            }),
    {
        let key: (u128, u128) = (sender_port_id, receiver_port_id);
        let ghost all = self@.channels;
        match self.channels.remove(&key) {
            Some(channel) => {
                let mut channel = channel;
                if duplicate.is_some() {
                    channel.authorized_sessions.insert(consumer_session_id.value);
                }
                let info = channel.to_segment_info();
                self.channels.insert(key, channel);
                assert(self@.channels =~= after_keyed_grant(
                    all,
                    key,
                    consumer_session_id,
                    duplicate,
                ));
                match duplicate {
                    Some(handle) => Some((info, handle)),
                    None => None,
                }
            },
            None => {
                assert(self@.channels =~= all);
                None
            },
        }
    }

    /// Returns the number of registered connection channels.
    pub fn channel_count(&self) -> (count: usize)
        ensures
            count == self@.channels.len(),
    {
        self.channels.len()
    }

    /// Registers a management-segment handle for a producer port.
    ///
    /// The segment is shared for reading only: consumers hold it to keep it alive. A size of
    /// zero counts as one.
    pub fn register_mgmt_segment(&mut self, port_id: u128, handle: H, size: usize) -> (result:
        Result<(), IamServerError>)
        ensures
            result == Ok::<(), IamServerError>(()),
            final(self)@ == (SegmentTable {
                mgmt_segments: old(self)@.mgmt_segments.insert(port_id, mgmt_state(handle, size)),
                ..old(self)@
            }),
    {
        let segment = ManagedSegment::new(
            SegmentId::new(0),
            handle,
            at_least_one(size),
            AccessRights::read_only(),
        );
        self.mgmt_segments.insert(port_id, segment);
        Ok(())
    }

    /// Returns the handle of a port's management segment.
    pub fn mgmt_segment_handle(&self, port_id: u128) -> (handle: Option<&H>)
        ensures
            match handle {
                Some(found) => self@.mgmt_segments.contains_key(port_id) && *found
                    == self@.mgmt_segments[port_id].handle,
                None => !self@.mgmt_segments.contains_key(port_id),
            },
    {
        match self.mgmt_segments.get(&port_id) {
            Some(segment) => Some(&segment.handle),
            None => None,
        }
    }

    /// Retrieves a management-segment handle for a consumer.
    ///
    /// There is nothing to hand on where the producer has not registered the segment or its
    /// handle could not be duplicated.
    pub fn get_mgmt_segment_handle_for_consumer(
        &mut self,
        port_id: u128,
        consumer_session_id: SessionId,
        duplicate: Option<H>,
    ) -> (granted: Option<(SegmentInfo, H)>)
        ensures
            granted == keyed_grant(old(self)@.mgmt_segments, port_id, duplicate),
            final(self)@ == (SegmentTable {
                mgmt_segments: after_keyed_grant(
                    old(self)@.mgmt_segments,
                    port_id,
                    consumer_session_id,
                    duplicate,
                ),
                ..old(self)@
            }),
    {
        let ghost all = self@.mgmt_segments;
        match self.mgmt_segments.remove(&port_id) {
            Some(segment) => {
                let mut segment = segment;
                if duplicate.is_some() {
                    segment.authorized_sessions.insert(consumer_session_id.value);
                }
                let info = segment.to_segment_info();
                self.mgmt_segments.insert(port_id, segment);
                assert(self@.mgmt_segments =~= after_keyed_grant(
                    all,
                    port_id,
                    consumer_session_id,
                    duplicate,
                ));
                match duplicate {
                    Some(handle) => Some((info, handle)),
                    None => None,
                }
            },
            None => {
                assert(self@.mgmt_segments =~= all);
                None
            },
        }
    }

    /// Returns the number of registered management segments.
    pub fn mgmt_segment_count(&self) -> (count: usize)
        ensures
            count == self@.mgmt_segments.len(),
    {
        self.mgmt_segments.len()
    }
}

/// What comes of asking for access to a segment.
pub open spec fn authorization<H>(grantable: bool, duplicate: Option<H>) -> Result<
    H,
    IamServerError,
> {
    if !grantable {
        Err(IamServerError::SegmentNotFound)
    } else {
        match duplicate {
            Some(handle) => Ok(handle),
            None => Err(IamServerError::HandlePassingFailed),
        }
    }
}

/// What a session that asks for a data segment gets.
pub open spec fn grant_result<H>(
    table: SegmentTable<H>,
    id: Option<u8>,
    duplicate: Option<H>,
) -> Option<(SegmentInfo, H)> {
    match (table.grant_of(id), duplicate) {
        (Some(_), Some(handle)) => Some(
            (
                SegmentInfo {
                    segment_id: SegmentId { value: id->0 },
                    size: table.segments[id->0].size,
                    access: table.segments[id->0].access,
                },
                handle,
            ),
        ),
        _ => None,
    }
}

/// The table once a session has asked for a data segment.
pub open spec fn table_after_grant<H>(
    table: SegmentTable<H>,
    id: Option<u8>,
    session_id: SessionId,
    duplicate: Option<H>,
) -> SegmentTable<H> {
    match (table.grant_of(id), duplicate) {
        (Some(_), Some(_)) => table.with_session(id->0, session_id.value),
        _ => table,
    }
}

/// The state of a channel that was just registered.
pub open spec fn channel_state<H>(handle: H, size: usize) -> SegmentState<H> {
    SegmentState::fresh(
        SegmentId { value: 0 },
        handle,
        if size == 0 {
            1
        } else {
            size
        },
        AccessRights { read: true, write: true },
    )
}

/// The state of a management segment that was just registered.
pub open spec fn mgmt_state<H>(handle: H, size: usize) -> SegmentState<H> {
    SegmentState::fresh(
        SegmentId { value: 0 },
        handle,
        if size == 0 {
            1
        } else {
            size
        },
        AccessRights { read: true, write: false },
    )
}

/// What a session that asks for a channel or a management segment gets.
pub open spec fn keyed_grant<K, H>(
    states: Map<K, SegmentState<H>>,
    key: K,
    duplicate: Option<H>,
) -> Option<(SegmentInfo, H)> {
    if !states.contains_key(key) {
        None
    } else {
        match duplicate {
            Some(handle) => Some((states[key].info(), handle)),
            None => None,
        }
    }
}

/// The channels or management segments once a session has asked for one.
pub open spec fn after_keyed_grant<K, H>(
    states: Map<K, SegmentState<H>>,
    key: K,
    session_id: SessionId,
    duplicate: Option<H>,
) -> Map<K, SegmentState<H>> {
    if states.contains_key(key) && duplicate is Some {
        states.insert(key, states[key].with_session(session_id.value))
    } else {
        states
    }
}

/// Returns a size, or one in place of zero.
pub(crate) fn at_least_one(size: usize) -> (floored: usize)
    ensures
        floored == (if size == 0 {
            1
        } else {
            size
        }),
{
    if size == 0 {
        1
    } else {
        size
    }
}

impl<H> SegmentManager<H> {
    /// Revokes a session's access to a segment, and with it a pending acknowledgment.
    /// Returns `true` if the session was authorized.
    pub fn revoke_session_from_segment(
        &mut self,
        segment_id: SegmentId,
        session_id: SessionId,
    ) -> (revoked: bool)
        ensures
            revoked == authorized_for(old(self)@, segment_id, session_id),
            final(self)@ == (if old(self)@.segments.contains_key(segment_id.value) {
                SegmentTable {
                    segments: old(self)@.segments.insert(
                        segment_id.value,
                        old(self)@.segments[segment_id.value].without_session(session_id.value),
                    ),
                    ..old(self)@
                }
            } else {
                old(self)@
            }),
    {
        let ghost table = self@;
        match self.segments.remove(&segment_id.value) {
            Some(segment) => {
                let mut segment = segment;
                let was_authorized = segment.authorized_sessions.remove(&session_id.value);
                segment.pending_acks.remove(&session_id.value);
                self.segments.insert(segment_id.value, segment);
                assert(self@.segments =~= table.segments.insert(
                    segment_id.value,
                    table.segments[segment_id.value].without_session(session_id.value),
                ));
                was_authorized
            },
            None => {
                assert(self@.segments =~= table.segments);
                false
            },
        }
    }

    /// Revokes a session's access from all data segments.
    pub fn revoke_session(&mut self, session_id: SessionId)
        ensures
            final(self)@ == old(self)@.without_session(session_id.value),
    {
        let ghost all = self@.segments;
        let ghost cut = |state: SegmentState<H>| state.without_session(session_id.value);
        let mut next: usize = 0;
        while next < 256
            invariant
                next <= 256,
                all == old(self)@.segments,
                cut == (|state: SegmentState<H>| state.without_session(session_id.value)),
                self@ == (SegmentTable { segments: self@.segments, ..old(self)@ }),
                self@.segments.dom() == all.dom(),
                forall|key: u8| #[trigger]
                    all.contains_key(key) ==> self@.segments[key] == (if key < next {
                        cut(all[key])
                    } else {
                        all[key]
                    }),
            decreases 256 - next,
        {
            let key: u8 = next as u8;
            self.revoke_session_from_segment(SegmentId::new(key), session_id);
            assert(self@.segments.dom() =~= all.dom());
            next += 1;
        }
        assert(self@.segments =~= all.map_values(cut));
    }

    /// Checks if a session is authorized for a segment.
    pub fn is_session_authorized(&self, segment_id: SegmentId, session_id: SessionId) -> (authorized:
        bool)
        ensures
            authorized == authorized_for(self@, segment_id, session_id),
    {
        match self.segments.get(&segment_id.value) {
            Some(segment) => segment.authorized_sessions.contains(&session_id.value),
            None => false,
        }
    }

    /// Begins the retirement process for a segment.
    ///
    /// Returns the numbers of the sessions that still have to acknowledge the retirement, or
    /// `None` if the segment doesn't exist.
    pub fn begin_retirement(&mut self, segment_id: SegmentId) -> (sessions: Option<BTreeSet<u64>>)
        ensures
            match sessions {
                Some(pending) => old(self)@.segments.contains_key(segment_id.value) && pending@
                    == old(self)@.segments[segment_id.value].retired().pending && final(self)@ == (
                SegmentTable {
                    segments: old(self)@.segments.insert(
                        segment_id.value,
                        old(self)@.segments[segment_id.value].retired(),
                    ),
                    ..old(self)@
                }),
                None => !old(self)@.segments.contains_key(segment_id.value) && final(self)@
                    == old(self)@,
            },
    {
        let ghost table = self@;
        match self.segments.remove(&segment_id.value) {
            Some(segment) => {
                let mut segment = segment;
                if !segment.retiring {
                    segment.retiring = true;
                    segment.pending_acks = segment.authorized_sessions.clone();
                }
                let pending = segment.pending_acks.clone();
                self.segments.insert(segment_id.value, segment);
                assert(self@.segments =~= table.segments.insert(
                    segment_id.value,
                    table.segments[segment_id.value].retired(),
                ));
                Some(pending)
            },
            None => {
                assert(self@.segments =~= table.segments);
                None
            },
        }
    }

    /// Acknowledges retirement from a session.
    ///
    /// Returns `true` if this was the last acknowledgment and the segment was removed. Only
    /// sessions that are authorized for a retiring segment are heard.
    pub fn ack_retirement(&mut self, segment_id: SegmentId, session_id: SessionId) -> (removed:
        bool)
        ensures
            removed == last_ack(old(self)@, segment_id, session_id),
            final(self)@ == table_after_ack(old(self)@, segment_id, session_id),
    {
        let ghost table = self@;
        match self.segments.remove(&segment_id.value) {
            Some(segment) => {
                let mut segment = segment;
                if !segment.retiring || !segment.authorized_sessions.contains(&session_id.value) {
                    self.segments.insert(segment_id.value, segment);
                    assert(self@.segments =~= table.segments);
                    return false;
                }
                segment.pending_acks.remove(&session_id.value);
                if segment.pending_acks.is_empty() {
                    return true;
                }
                self.segments.insert(segment_id.value, segment);
                assert(self@.segments =~= table_after_ack(table, segment_id, session_id).segments);
                false
            },
            None => {
                assert(self@.segments =~= table.segments);
                false
            },
        }
    }

    /// Checks if a segment is retiring.
    pub fn is_retiring(&self, segment_id: SegmentId) -> (retiring: bool)
        ensures
            retiring == (self@.segments.contains_key(segment_id.value)
                && self@.segments[segment_id.value].retiring),
    {
        match self.segments.get(&segment_id.value) {
            Some(segment) => segment.retiring,
            None => false,
        }
    }

    /// Gets the pending ack count for a retiring segment.
    pub fn pending_ack_count(&self, segment_id: SegmentId) -> (count: usize)
        ensures
            count == (if self@.segments.contains_key(segment_id.value) {
                self@.segments[segment_id.value].pending.len()
            } else {
                0
            }),
    {
        match self.segments.get(&segment_id.value) {
            Some(segment) => segment.pending_acks.len(),
            None => 0,
        }
    }

    /// Gets segment info for a single segment.
    pub fn get_segment_info(&self, segment_id: SegmentId) -> (info: Option<SegmentInfo>)
        ensures
            info == (if self@.segments.contains_key(segment_id.value) {
                Some(self@.segments[segment_id.value].info())
            } else {
                None
            }),
    {
        match self.segments.get(&segment_id.value) {
            Some(segment) => Some(segment.to_segment_info()),
            None => None,
        }
    }

    /// Gets segment info for all active segments a session is authorized for, by ascending ID.
    pub fn get_session_segments(&self, session_id: SessionId) -> (infos: Vec<SegmentInfo>)
        ensures
            infos@ == session_infos(self@, session_id),
            infos@.len() <= 256,
    {
        let ghost keep = |state: SegmentState<H>|
            state.authorized.contains(session_id.value) && !state.retiring;
        let mut infos: Vec<SegmentInfo> = Vec::new();
        let mut next: usize = 0;
        while next < 256
            invariant
                next <= 256,
                keep == (|state: SegmentState<H>|
                    state.authorized.contains(session_id.value) && !state.retiring),
                infos@ == infos_below(self@.segments, keep, next as int),
                infos@.len() <= next,
            decreases 256 - next,
        {
            let key: u8 = next as u8;
            if let Some(segment) = self.segments.get(&key) {
                if segment.authorized_sessions.contains(&session_id.value) && !segment.retiring {
                    infos.push(segment.to_segment_info());
                }
            }
            next += 1;
        }
        infos
    }

    /// Gets the handles of all active segments a session is authorized for, by ascending ID.
    pub fn get_session_handles(&self, session_id: SessionId) -> (handles: Vec<&H>)
        ensures
            handles@.map_values(|handle: &H| *handle) == session_segments(
                self@,
                session_id,
            ).map_values(|state: SegmentState<H>| state.handle),
    {
        let ghost keep = |state: SegmentState<H>|
            state.authorized.contains(session_id.value) && !state.retiring;
        let mut handles: Vec<&H> = Vec::new();
        let mut next: usize = 0;
        assert(handles@.map_values(|handle: &H| *handle) =~= picked_below(
            self@.segments,
            keep,
            0,
        ).map_values(|state: SegmentState<H>| state.handle));
        while next < 256
            invariant
                next <= 256,
                keep == (|state: SegmentState<H>|
                    state.authorized.contains(session_id.value) && !state.retiring),
                handles@.map_values(|handle: &H| *handle) == picked_below(
                    self@.segments,
                    keep,
                    next as int,
                ).map_values(|state: SegmentState<H>| state.handle),
            decreases 256 - next,
        {
            let key: u8 = next as u8;
            let ghost earlier = handles@;
            if let Some(segment) = self.segments.get(&key) {
                if segment.authorized_sessions.contains(&session_id.value) && !segment.retiring {
                    handles.push(&segment.handle);
                    assert(handles@.map_values(|handle: &H| *handle) =~= earlier.map_values(
                        |handle: &H| *handle,
                    ).push(segment.handle));
                    assert(picked_below(self@.segments, keep, next + 1).map_values(
                        |state: SegmentState<H>| state.handle,
                    ) =~= picked_below(self@.segments, keep, next as int).map_values(
                        |state: SegmentState<H>| state.handle,
                    ).push(segment.handle));
                }
            }
            next += 1;
        }
        handles
    }

    /// Gets all non-retiring segments by ascending ID.
    pub fn get_active_segments(&self) -> (infos: Vec<SegmentInfo>)
        ensures
            infos@ == infos_below(
                self@.segments,
                |state: SegmentState<H>| !state.retiring,
                256,
            ),
    {
        let ghost keep = |state: SegmentState<H>| !state.retiring;
        let mut infos: Vec<SegmentInfo> = Vec::new();
        let mut next: usize = 0;
        while next < 256
            invariant
                next <= 256,
                keep == (|state: SegmentState<H>| !state.retiring),
                infos@ == infos_below(self@.segments, keep, next as int),
            decreases 256 - next,
        {
            let key: u8 = next as u8;
            if let Some(segment) = self.segments.get(&key) {
                if !segment.retiring {
                    infos.push(segment.to_segment_info());
                }
            }
            next += 1;
        }
        infos
    }
}

/// Whether a session may access a segment.
pub open spec fn authorized_for<H>(
    table: SegmentTable<H>,
    segment_id: SegmentId,
    session_id: SessionId,
) -> bool {
    table.segments.contains_key(segment_id.value)
        && table.segments[segment_id.value].authorized.contains(session_id.value)
}

/// Whether an acknowledgment counts: the segment is being retired and the session may access
/// it.
pub open spec fn ack_counts<H>(
    table: SegmentTable<H>,
    segment_id: SegmentId,
    session_id: SessionId,
) -> bool {
    authorized_for(table, segment_id, session_id) && table.segments[segment_id.value].retiring
}

/// Whether an acknowledgment is the last that a segment waits for.
pub open spec fn last_ack<H>(
    table: SegmentTable<H>,
    segment_id: SegmentId,
    session_id: SessionId,
) -> bool {
    ack_counts(table, segment_id, session_id) && table.segments[segment_id.value].pending.remove(
        session_id.value,
    ).is_empty()
}

/// The table once a session has acknowledged the retirement of a segment.
pub open spec fn table_after_ack<H>(
    table: SegmentTable<H>,
    segment_id: SegmentId,
    session_id: SessionId,
) -> SegmentTable<H> {
    if !ack_counts(table, segment_id, session_id) {
        table
    } else if last_ack(table, segment_id, session_id) {
        SegmentTable { segments: table.segments.remove(segment_id.value), ..table }
    } else {
        SegmentTable {
            segments: table.segments.insert(
                segment_id.value,
                table.segments[segment_id.value].acknowledged(session_id.value),
            ),
            ..table
        }
    }
}

/// What a session is told of the active segments that it may access, by ascending identifier.
pub open spec fn session_infos<H>(table: SegmentTable<H>, session_id: SessionId) -> Seq<
    SegmentInfo,
> {
    infos_below(
        table.segments,
        |state: SegmentState<H>|
            state.authorized.contains(session_id.value) && !state.retiring,
        256,
    )
}

/// The active segments that a session may access, by ascending identifier.
pub open spec fn session_segments<H>(table: SegmentTable<H>, session_id: SessionId) -> Seq<
    SegmentState<H>,
> {
    picked_below(
        table.segments,
        |state: SegmentState<H>|
            state.authorized.contains(session_id.value) && !state.retiring,
        256,
    )
}

/// What a session is told of its active segments is what those segments are told of.
pub proof fn lemma_session_infos<H>(table: SegmentTable<H>, session_id: SessionId)
    ensures
        session_infos(table, session_id) == session_segments(table, session_id).map_values(
            |state: SegmentState<H>| state.info(),
        ),
{
    lemma_infos_of_picked(
        table.segments,
        |state: SegmentState<H>|
            state.authorized.contains(session_id.value) && !state.retiring,
        256,
    );
}

proof fn lemma_infos_of_picked<H>(
    segments: Map<u8, SegmentState<H>>,
    keep: spec_fn(SegmentState<H>) -> bool,
    n: int,
)
    ensures
        infos_below(segments, keep, n) == picked_below(segments, keep, n).map_values(
            |state: SegmentState<H>| state.info(),
        ),
    decreases n,
{
    if n > 0 {
        lemma_infos_of_picked(segments, keep, n - 1);
    }
    assert(infos_below(segments, keep, n) =~= picked_below(segments, keep, n).map_values(
        |state: SegmentState<H>| state.info(),
    ));
}

} // verus!
