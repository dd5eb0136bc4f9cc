//! The server: sessions, policy enforcement, resource accounting and segment brokering.
//!
//! The server decides; the process around it accepts connections, receives requests, duplicates
//! and passes handles, creates segments and writes the audit log. A request comes to an
//! [`Outcome`]: an event for the audit log and what is to be done next.

use std::collections::{BTreeMap, BTreeSet};
use vstd::prelude::*;
use crate::audit::{AuditEvent, AuditEventKind, Timestamp};
use crate::collections::views;
use crate::error::IamServerError;
use crate::ledger;
use crate::ledger::{Charge, Holding};
use crate::policy::{IamPolicy, PolicyDecision, QosBounds, ResourceLimits, Verdict};
use crate::protocol;
use crate::protocol::{
    Answer, DenialReason, IamNotification, IamRequest, IamResponse, MessagingPatternKind,
    PortType, ProtocolVersion, SegmentInfo, SessionCounter, SessionId, MAX_HANDLES_PER_MESSAGE,
};
use crate::segment_laws;
use crate::segment_manager;
use crate::segment_manager::{at_least_one, SegmentManager, SegmentTable};
use crate::server_state;
use crate::server_state::{
    AuditEntry, ConsumerState, Effect, EntryState, HandleOrder, NoticeState, QosRequest,
    Registration, ReplyState, SegmentOrder, ServerState,
};
use crate::session;
use crate::session::{ClientSession, PortInfo, SessionResourceUsage, SessionState};
use crate::text::append_decimal;
use crate::types::{AccessRights, ProcessCredentials, SegmentId, ServiceId, ServiceName};

verus! {

broadcast use {
    vstd::laws_cmp::group_laws_cmp,
    vstd::std_specs::btree::group_btree_axioms,
    crate::collections::group_views,
};

/// Entry in the sessions map.
#[derive(Debug)]
struct SessionEntry {
    session: ClientSession,
    handshake_complete: bool,
}

impl View for SessionEntry {
    type V = EntryState;

    closed spec fn view(&self) -> EntryState {
        EntryState { session: self.session@, handshake_complete: self.handshake_complete }
    }
}

/// A port that is to be told of new segments of a service.
#[derive(Debug)]
struct Consumer {
    service_id: ServiceId,
    session_id: SessionId,
    port_id: u128,
}

impl View for Consumer {
    type V = ConsumerState;

    closed spec fn view(&self) -> ConsumerState {
        ConsumerState {
            service: self.service_id@,
            session_id: self.session_id,
            port_id: self.port_id,
        }
    }
}

impl Consumer {
    /// Returns a copy of the consumer.
    fn copy(&self) -> (copy: Consumer)
        ensures
            copy@ == self@,
    {
        Consumer {
            service_id: self.service_id.clone(),
            session_id: self.session_id,
            port_id: self.port_id,
        }
    }
}

/// An event for the audit log, before it has a time.
#[derive(Debug)]
pub struct AuditRecord {
    /// What kind of event occurred.
    pub kind: AuditEventKind,
    /// Credentials of the process that triggered the event.
    pub credentials: ProcessCredentials,
    /// The policy decision for this event.
    pub decision: PolicyDecision,
}

impl View for AuditRecord {
    type V = AuditEntry;

    open spec fn view(&self) -> AuditEntry {
        AuditEntry {
            kind: self.kind,
            credentials: self.credentials,
            verdict: self.decision@,
        }
    }
}

/// What is to be done about a request.
#[derive(Debug)]
#[allow(inconsistent_fields)]
pub enum Reply<H> {
    /// Send a response and handles to the client.
    Answer {
        /// The response.
        response: IamResponse,
        /// The handles that go with it.
        handles: Vec<H>,
    },
    /// Give the session up.
    Failed {
        /// The error.
        error: IamServerError,
    },
    /// Create a segment, then go on with [`IamServer::complete_add_segment`].
    CreateSegment {
        /// The segment to create.
        order: SegmentOrder,
    },
    /// Receive handles from the client, then go on with [`IamServer::complete_registration`].
    ReceiveHandles {
        /// The registration that the handles belong to.
        order: HandleOrder,
    },
}

impl<H> View for Reply<H> {
    type V = ReplyState<H>;

    open spec fn view(&self) -> ReplyState<H> {
        match self {
            Reply::Answer { response, handles } => ReplyState::Answer {
                answer: response@,
                handles: handles@,
            },
            Reply::Failed { error } => ReplyState::Failed { error: *error },
            Reply::CreateSegment { order } => ReplyState::CreateSegment { order: *order },
            Reply::ReceiveHandles { order } => ReplyState::ReceiveHandles { order: *order },
        }
    }
}

/// What a request comes to.
#[derive(Debug)]
pub struct Outcome<H> {
    /// The event for the audit log.
    pub audit: Option<AuditRecord>,
    /// What is to be done.
    pub reply: Reply<H>,
}

impl<H> Outcome<H> {
    /// Whether the outcome is what an effect says.
    pub open spec fn shows(self, effect: Effect<H>) -> bool {
        &&& match self.audit {
            Some(record) => effect.audit == Some(record@),
            None => effect.audit is None,
        }
        &&& self.reply@ == effect.reply
    }

    /// An outcome that is an answer without handles.
    fn answer(audit: Option<AuditRecord>, response: IamResponse) -> (outcome: Self)
        ensures
            outcome.audit == audit,
            outcome.reply@ == (ReplyState::<H>::Answer {
                answer: response@,
                handles: Seq::empty(),
            }),
    {
        Outcome { audit, reply: Reply::Answer { response, handles: Vec::new() } }
    }

    /// An outcome that is a failure.
    fn failure(audit: Option<AuditRecord>, error: IamServerError) -> (outcome: Self)
        ensures
            outcome.audit == audit,
            outcome.reply@ == (ReplyState::<H>::Failed { error }),
    {
        Outcome { audit, reply: Reply::Failed { error } }
    }

    /// An outcome that hands out a handle.
    fn hand_out(response: IamResponse, handle: H) -> (outcome: Self)
        ensures
            outcome.audit is None,
            outcome.reply@ == (ReplyState::Answer { answer: response@, handles: seq![handle] }),
    {
        let mut handles: Vec<H> = Vec::new();
        handles.push(handle);
        assert(handles@ =~= seq![handle]);
        Outcome { audit: None, reply: Reply::Answer { response, handles } }
    }
}

/// Returns the response to a request that the policy has denied.
fn refusal(decision: PolicyDecision) -> (response: Option<IamResponse>)
    ensures
        match decision@ {
            Verdict::Allow => response is None,
            Verdict::Deny { reason, message } => response matches Some(denied) && denied@ == (
            Answer::Denied { reason, message }),
        },
{
    match decision {
        PolicyDecision::Allow => None,
        PolicyDecision::Deny { reason, message } => Some(IamResponse::Denied { reason, message }),
    }
}

/// The server for secured inter-process communication.
///
/// It is generic over the policy `P` and over the handles `H` by which segments are shared.
#[derive(Debug)]
pub struct IamServer<P, H> {
    sessions: BTreeMap<u64, SessionEntry>,
    segment_manager: SegmentManager<H>,
    policy: P,
    port_counter: u128,
    service_name: String,
    port_to_service: BTreeMap<u128, ServiceId>,
    service_consumers: Vec<Consumer>,
    ledger: Vec<Charge>,
}

impl<P, H> View for IamServer<P, H> {
    type V = ServerState<H>;

    closed spec fn view(&self) -> ServerState<H> {
        ServerState {
            sessions: views(self.sessions@),
            table: self.segment_manager@,
            port_counter: self.port_counter,
            producers: views(self.port_to_service@),
            consumers: self.service_consumers@.map_values(|consumer: Consumer| consumer@),
            ledger: self.ledger@,
        }
    }
}

/// Builder for constructing an [`IamServer`] with optional configuration.
///
/// The service name, empty if it is not set, stands in audit events.
#[derive(Debug)]
pub struct IamServerBuilder<P> {
    policy: P,
    service_name: String,
}

impl<P> IamServerBuilder<P> {
    /// The policy.
    pub closed spec fn rules(&self) -> P {
        self.policy
    }

    /// The service name.
    pub closed spec fn name(&self) -> Seq<char> {
        self.service_name@
    }

    /// Creates a new builder with the required policy.
    pub fn new(policy: P) -> (builder: Self)
        ensures
            builder.rules() == policy,
            builder.name() == Seq::<char>::empty(),
    {
        IamServerBuilder { policy, service_name: String::new() }
    }

    /// Sets the service name for audit events.
    pub fn service_name(self, name: &str) -> (builder: Self)
        ensures
            builder.rules() == self.rules(),
            builder.name() == name@,
    {
        IamServerBuilder { policy: self.policy, service_name: String::from_str(name) }
    }

    /// Builds the [`IamServer`].
    pub fn build<H>(self) -> (server: IamServer<P, H>) where P: IamPolicy
        ensures
            server@ == ServerState::<H>::empty(),
            server.rules() == self.rules(),
            server.name() == self.name(),
    {
        IamServer::new_with_audit(self.policy, self.service_name)
    }
}

impl<P, H> IamServer<P, H> {
    /// The policy for authorization decisions.
    pub closed spec fn rules(&self) -> P {
        self.policy
    }

    /// The service name for audit events.
    pub closed spec fn name(&self) -> Seq<char> {
        self.service_name@
    }

    /// Whether two servers have the same policy and service name.
    pub open spec fn same_setup(&self, other: &Self) -> bool {
        self.rules() == other.rules() && self.name() == other.name()
    }

    /// Creates a new server with the given policy.
    pub fn new(policy: P) -> (server: Self)
        ensures
            server@ == ServerState::<H>::empty(),
            server.rules() == policy,
            server.name() == Seq::<char>::empty(),
    {
        IamServer::new_with_audit(policy, String::new())
    }

    /// Creates a new server whose audit events carry a service name.
    pub fn new_with_audit(policy: P, service_name: String) -> (server: Self)
        ensures
            server@ == ServerState::<H>::empty(),
            server.rules() == policy,
            server.name() == service_name@,
    {
        let server = IamServer {
            sessions: BTreeMap::new(),
            segment_manager: SegmentManager::new(),
            policy,
            port_counter: 0,
            service_name,
            port_to_service: BTreeMap::new(),
            service_consumers: Vec::new(),
            ledger: Vec::new(),
        };
        assert(server@.consumers =~= Seq::empty());
        assert(server@.ledger =~= Seq::empty());
        server
    }

    /// Returns a reference to the policy.
    pub fn policy(&self) -> (policy: &P)
        ensures
            *policy == self.rules(),
    {
        &self.policy
    }

    /// Returns a mutable reference to the policy.
    pub fn policy_mut(&mut self) -> (policy: &mut P)
        ensures
            *policy == old(self).rules(),
            final(self).rules() == *final(policy),
            final(self)@ == old(self)@,
            final(self).name() == old(self).name(),
    {
        &mut self.policy
    }

    /// Returns the number of active sessions.
    pub fn session_count(&self) -> (count: usize)
        ensures
            count == self@.sessions.len(),
    {
        self.sessions.len()
    }

    /// Returns the number of managed segments.
    pub fn segment_count(&self) -> (count: usize)
        ensures
            count == self@.table.segments.len(),
    {
        self.segment_manager.segment_count()
    }

    /// Returns the segments that the server manages.
    pub fn segments(&self) -> (manager: &SegmentManager<H>)
        ensures
            manager@ == self@.table,
    {
        &self.segment_manager
    }

    /// Gets a session.
    pub fn session(&self, session_id: SessionId) -> (session: Option<&ClientSession>)
        ensures
            match session {
                Some(found) => self@.sessions.contains_key(session_id.value) && found@
                    == self@.sessions[session_id.value].session,
                None => !self@.sessions.contains_key(session_id.value),
            },
    {
        match self.sessions.get(&session_id.value) {
            Some(entry) => Some(&entry.session),
            None => None,
        }
    }

    /// Returns `true` if the client of a session has completed the handshake.
    pub fn is_handshake_complete(&self, session_id: SessionId) -> (complete: bool)
        ensures
            complete == (self@.sessions.contains_key(session_id.value)
                && self@.sessions[session_id.value].handshake_complete),
    {
        match self.sessions.get(&session_id.value) {
            Some(entry) => entry.handshake_complete,
            None => false,
        }
    }

    /// Gets the resource usage for a session.
    pub fn get_session_usage(&self, session_id: SessionId) -> (usage: Option<
        &SessionResourceUsage,
    >)
        ensures
            match usage {
                Some(found) => self@.sessions.contains_key(session_id.value) && *found
                    == self@.sessions[session_id.value].session.usage,
                None => !self@.sessions.contains_key(session_id.value),
            },
    {
        match self.sessions.get(&session_id.value) {
            Some(entry) => Some(entry.session.resource_usage()),
            None => None,
        }
    }

    /// Returns the service of a producer port.
    pub fn service_of_port(&self, port_id: u128) -> (service_id: Option<&ServiceId>)
        ensures
            match service_id {
                Some(found) => self@.producers.contains_key(port_id) && found@
                    == self@.producers[port_id],
                None => !self@.producers.contains_key(port_id),
            },
    {
        self.port_to_service.get(&port_id)
    }

    /// Returns the number of producer ports.
    pub fn producer_count(&self) -> (count: usize)
        ensures
            count == self@.producers.len(),
    {
        self.port_to_service.len()
    }

    /// Returns the number of consumer ports.
    pub fn consumer_count(&self) -> (count: usize)
        ensures
            count == self@.consumers.len(),
    {
        self.service_consumers.len()
    }

    /// Gives an audit event its time and the server's service name.
    pub fn audit_event(&self, record: AuditRecord, timestamp: Option<Timestamp>) -> (event:
        AuditEvent)
        ensures
            event.timestamp == timestamp,
            event.kind == record.kind,
            event.credentials == record.credentials,
            event.service_name@ == self.name(),
            event.decision == record.decision,
    {
        AuditEvent::new(
            timestamp,
            record.kind,
            record.credentials,
            self.service_name.clone(),
            record.decision,
        )
    }

    /// Checks if adding a port would exceed limits, and returns the denial if it would.
    pub fn check_port_limit(
        &self,
        usage: &SessionResourceUsage,
        port_type: PortType,
        limits: &ResourceLimits,
    ) -> (denial: Option<IamResponse>)
        ensures
            match denial {
                Some(response) => usage.ports(port_type) >= limits.port_limit(port_type)
                    && response@ == server_state::port_limit_reached(
                    port_type,
                    limits.port_limit(port_type),
                ),
                None => usage.ports(port_type) < limits.port_limit(port_type),
            },
    {
        let (current, max, name): (usize, usize, &'static str) = match port_type {
            PortType::Publisher => (usage.publisher_count, limits.max_publishers, "publishers"),
            PortType::Subscriber => (
                usage.subscriber_count,
                limits.max_subscribers,
                "subscribers",
            ),
            PortType::Server => (usage.server_count, limits.max_servers, "servers"),
            PortType::Client => (usage.client_count, limits.max_clients, "clients"),
        };
        if current >= max {
            let mut message = "Maximum ".to_owned();
            message.append(name);
            message.append(" (");
            append_decimal(&mut message, max as u128);
            message.append(") reached");
            Some(IamResponse::Denied { reason: DenialReason::ResourceLimitExceeded, message })
        } else {
            None
        }
    }

    /// Returns `true` if there is a port ID left to allocate.
    pub fn can_allocate_port_id(&self) -> (possible: bool)
        ensures
            possible == (self@.port_counter < u128::MAX),
    {
        self.port_counter < u128::MAX
    }

    /// Returns `true` if the segments of a session can be counted further; so they can where
    /// there is no such session.
    pub fn can_count_segments(&self, session_id: SessionId) -> (possible: bool)
        ensures
            possible == self@.counts_further(session_id),
    {
        match self.sessions.get(&session_id.value) {
            Some(entry) => entry.session.resource_usage().segment_count < usize::MAX,
            None => true,
        }
    }

    /// Returns `true` if a session can be granted a segment; so it can where there is no such
    /// session.
    pub fn can_grant(&self, session_id: SessionId, segment_id: SegmentId) -> (possible: bool)
        ensures
            possible == self@.can_grant(session_id, segment_id),
    {
        match self.sessions.get(&session_id.value) {
            Some(entry) => entry.session.resource_usage().segment_count < usize::MAX
                || self.counts(session_id, Holding::Segment { segment_id }),
            None => true,
        }
    }

    /// Returns `true` if something counts for a session.
    fn counts(&self, session_id: SessionId, holding: Holding) -> (counted: bool)
        ensures
            counted == ledger::is_charged(self@.ledger, session_id, holding),
    {
        let mut i: usize = 0;
        while i < self.ledger.len()
            invariant
                i <= self.ledger@.len(),
                forall|j: int|
                    0 <= j < i ==> !((#[trigger] self.ledger@[j]).session_id == session_id
                        && self.ledger@[j].holding == holding),
            decreases self.ledger@.len() - i,
        {
            let charge = self.ledger[i];
            if charge.session_id.value == session_id.value && charge.holding == holding {
                assert(self.ledger@[i as int].session_id == session_id);
                return true;
            }
            i += 1;
        }
        false
    }

    /// Returns `true` if the server can number and count what a request of a session may bring.
    pub fn is_ready_for(&self, session_id: SessionId, request: &IamRequest) -> (ready: bool)
        ensures
            ready == self@.ready_for(session_id, *request),
    {
        match request {
            IamRequest::AttachPublisher { .. }
            | IamRequest::AttachSubscriber { .. }
            | IamRequest::AttachServer { .. }
            | IamRequest::AttachClient { .. } => self.can_allocate_port_id(),
            IamRequest::RequestSegmentHandle { .. }
            | IamRequest::RequestDynamicSegmentHandle { .. } => self.can_count_segments(session_id),
            _ => true,
        }
    }

    /// Allocates a unique port ID: one more than the last.
    pub fn allocate_port_id(&mut self) -> (port_id: u128)
        requires
            old(self)@.port_counter < u128::MAX,
        ensures
            port_id == old(self)@.port_counter + 1,
            final(self)@ == (ServerState { port_counter: port_id, ..old(self)@ }),
            final(self).same_setup(old(self)),
    {
        self.port_counter += 1;
        self.port_counter
    }

    /// Calculates the segment size for a publisher: room for the history and one current
    /// sample, and a fixed overhead.
    pub fn calculate_publisher_segment_size(history_size: usize, max_slice_len: usize) -> (size:
        usize)
        requires
            history_size < usize::MAX,
        ensures
            size == (if (history_size + 1) * max_slice_len + 4096 > usize::MAX {
                usize::MAX as int
            } else {
                (history_size + 1) * max_slice_len + 4096
            }),
    {
        let samples: usize = history_size + 1;
        assert((history_size + 1) * max_slice_len >= 0) by (nonlinear_arith)
            requires
                history_size >= 0,
                max_slice_len >= 0,
        ;
        let payload: usize = match samples.checked_mul(max_slice_len) {
            Some(product) => product,
            None => usize::MAX,
        };
        payload.saturating_add(4096)
    }
}

impl<P, H> IamServer<P, H> {
    /// Replaces what is known of a session.
    fn put_session(&mut self, session_id: SessionId, session: ClientSession, handshake_complete: bool)
        ensures
            final(self)@ == (ServerState {
                sessions: old(self)@.sessions.insert(
                    session_id.value,
                    EntryState { session: session@, handshake_complete },
                ),
                ..old(self)@
            }),
            final(self).same_setup(old(self)),
    {
        self.sessions.insert(session_id.value, SessionEntry { session, handshake_complete });
    }

    /// Handles the Hello handshake request.
    fn handle_hello(&mut self, session_id: SessionId, protocol_version: ProtocolVersion) -> (outcome:
        Outcome<H>)
        requires
            old(self)@.sessions.contains_key(session_id.value),
        ensures
            outcome.shows(old(self)@.hello(session_id, protocol_version)),
            final(self)@ == old(self)@.hello(session_id, protocol_version).state,
            final(self).same_setup(old(self)),
    {
        let current = ProtocolVersion::current();
        if !current.accepts_client(&protocol_version) {
            let mut message = "Client version ".to_owned();
            append_decimal(&mut message, protocol_version.major as u128);
            message.append(".");
            append_decimal(&mut message, protocol_version.minor as u128);
            message.append(" not compatible with server version ");
            append_decimal(&mut message, current.major as u128);
            message.append(".");
            append_decimal(&mut message, current.minor as u128);
            return Outcome::answer(
                None,
                IamResponse::Denied { reason: DenialReason::VersionMismatch, message },
            );
        }
        let ghost before = self@;
        if let Some(entry) = self.sessions.remove(&session_id.value) {
            self.put_session(session_id, entry.session, true);
        }
        assert(self@.sessions =~= before.with_handshake(session_id).sessions);
        Outcome::answer(
            None,
            IamResponse::HelloOk { negotiated_version: current, session_id },
        )
    }

    /// Pairs the segments that an attached port is offered with the duplicates of their handles.
    fn offer(
        &self,
        session_id: SessionId,
        port_type: PortType,
        copies: Vec<Option<H>>,
    ) -> (offer: (Vec<SegmentInfo>, Vec<H>))
        ensures
            offer.0@ == self@.offer(session_id, port_type, copies@).map_values(
                |one: (SegmentInfo, H)| one.0,
            ),
            offer.1@ == self@.offer(session_id, port_type, copies@).map_values(
                |one: (SegmentInfo, H)| one.1,
            ),
            offer.0@.len() == self@.offer(session_id, port_type, copies@).len(),
    {
        let ghost all = copies@;
        let ghost first = |one: (SegmentInfo, H)| one.0;
        let ghost second = |one: (SegmentInfo, H)| one.1;
        let mut offered_info: Vec<SegmentInfo> = Vec::new();
        let mut handles: Vec<H> = Vec::new();
        match port_type {
            PortType::Subscriber => {},
            _ => {
                assert(offered_info@ =~= self@.offer(session_id, port_type, all).map_values(first));
                assert(handles@ =~= self@.offer(session_id, port_type, all).map_values(second));
                return (offered_info, handles);
            },
        }
        let segment_info = self.segment_manager.get_session_segments(session_id);
        let count: usize = if segment_info.len() <= MAX_HANDLES_PER_MESSAGE {
            segment_info.len()
        } else {
            MAX_HANDLES_PER_MESSAGE
        };
        let mut copies = copies;
        let mut i: usize = 0;
        assert(offered_info@ =~= server_state::offered(segment_info@, all, 0).map_values(first));
        assert(handles@ =~= server_state::offered(segment_info@, all, 0).map_values(second));
        assert(copies@ =~= all.skip(0));
        while i < count
            invariant
                i <= count <= segment_info@.len(),
                first == (|one: (SegmentInfo, H)| one.0),
                second == (|one: (SegmentInfo, H)| one.1),
                i <= all.len() ==> copies@ == all.skip(i as int),
                i > all.len() ==> copies@.len() == 0,
                offered_info@ == server_state::offered(segment_info@, all, i as int).map_values(
                    first,
                ),
                handles@ == server_state::offered(segment_info@, all, i as int).map_values(second),
            decreases count - i,
        {
            let ghost rest = server_state::offered(segment_info@, all, i as int);
            if copies.len() > 0 {
                let copy = copies.remove(0);
                assert(copies@ =~= all.skip(i + 1));
                if let Some(handle) = copy {
                    offered_info.push(segment_info[i]);
                    handles.push(handle);
                    assert(rest.push((segment_info@[i as int], handle)).map_values(first)
                        =~= offered_info@);
                    assert(rest.push((segment_info@[i as int], handle)).map_values(second)
                        =~= handles@);
                }
            }
            i += 1;
        }
        (offered_info, handles)
    }

    /// Attaches a port that the policy allows, within the limits and the bounds that the policy
    /// sets.
    ///
    /// `copies` is what came of duplicating the handles that the port is to get, see
    /// [`IamServer::wanted_handles`].
    pub fn attach_within(
        &mut self,
        session_id: SessionId,
        service_id: &ServiceId,
        port_type: PortType,
        asked: QosRequest,
        limits: &ResourceLimits,
        bounds: &QosBounds,
        copies: Vec<Option<H>>,
    ) -> (outcome: Outcome<H>)
        requires
            old(self)@.sessions.contains_key(session_id.value),
            old(self)@.port_counter < u128::MAX,
        ensures
            outcome.shows(
                old(self)@.attach_within(
                    session_id,
                    service_id@,
                    port_type,
                    asked,
                    *limits,
                    *bounds,
                    copies@,
                ),
            ),
            final(self)@ == old(self)@.attach_within(
                session_id,
                service_id@,
                port_type,
                asked,
                *limits,
                *bounds,
                copies@,
            ).state,
            final(self).same_setup(old(self)),
    {
        let ghost before = self@;
        let (credentials, usage): (ProcessCredentials, SessionResourceUsage) =
            match self.sessions.get(&session_id.value) {
            Some(entry) => (*entry.session.credentials(), *entry.session.resource_usage()),
            None => {
                assert(false);
                (ProcessCredentials::new(0, 0, 0), SessionResourceUsage::new())
            },
        };
        let full = match port_type {
            PortType::Publisher => usage.segment_count >= limits.max_segments,
            _ => false,
        };
        let denial = match self.check_port_limit(&usage, port_type, limits) {
            Some(response) => Some(response),
            None => if full {
                Some(
                    IamResponse::denied(
                        DenialReason::ResourceLimitExceeded,
                        "Maximum segment count reached",
                    ),
                )
            } else {
                check_qos(&asked, bounds)
            },
        };
        if let Some(response) = denial {
            return Outcome::answer(
                Some(
                    AuditRecord {
                        kind: AuditEventKind::Attach { port_type, port_id: 0 },
                        credentials,
                        decision: PolicyDecision::Allow,
                    },
                ),
                response,
            );
        }
        let (segment_info, handles): (Vec<SegmentInfo>, Vec<H>) = self.offer(
            session_id,
            port_type,
            copies,
        );
        let handle_count: usize = segment_info.len();
        let port_id: u128 = self.allocate_port_id();
        if let Some(entry) = self.sessions.remove(&session_id.value) {
            let mut session = entry.session;
            session.add_port(port_id, port_type);
            self.put_session(session_id, session, entry.handshake_complete);
        }
        match port_type {
            PortType::Publisher | PortType::Server => {
                self.port_to_service.insert(port_id, service_id.clone());
            },
            PortType::Subscriber | PortType::Client => {
                let ghost consumers = self.service_consumers@;
                self.service_consumers.push(
                    Consumer { service_id: service_id.clone(), session_id, port_id },
                );
                proof {
                    let view = |consumer: Consumer| consumer@;
                    assert(self@.consumers =~= consumers.map_values(view).push(
                        ConsumerState { service: service_id@, session_id, port_id },
                    ));
                }
            },
        }
        proof {
            let after = before.with_new_port(session_id, service_id@, port_type);
            assert(self@.sessions =~= after.sessions);
            assert(self@.producers =~= after.producers);
            assert(self@.consumers =~= after.consumers);
        }
        Outcome {
            audit: Some(
                AuditRecord {
                    kind: AuditEventKind::Attach { port_type, port_id },
                    credentials,
                    decision: PolicyDecision::Allow,
                },
            ),
            reply: Reply::Answer {
                response: IamResponse::AttachOk { port_id, segment_info, handle_count },
                handles,
            },
        }
    }

    /// Orders a segment that the policy allows, within the limits that the policy sets.
    pub fn add_segment_within(
        &mut self,
        session_id: SessionId,
        port_id: u128,
        requested_size: usize,
        bucket_size: usize,
        bucket_align: usize,
        limits: &ResourceLimits,
    ) -> (outcome: Outcome<H>)
        requires
            old(self)@.sessions.contains_key(session_id.value),
        ensures
            outcome.shows(
                old(self)@.add_segment_within(
                    session_id,
                    port_id,
                    requested_size,
                    bucket_size,
                    bucket_align,
                    *limits,
                ),
            ),
            final(self)@ == old(self)@.add_segment_within(
                session_id,
                port_id,
                requested_size,
                bucket_size,
                bucket_align,
                *limits,
            ).state,
            final(self).same_setup(old(self)),
    {
        let ghost table = self@.table;
        let (credentials, usage): (ProcessCredentials, SessionResourceUsage) =
            match self.sessions.get(&session_id.value) {
            Some(entry) => (*entry.session.credentials(), *entry.session.resource_usage()),
            None => {
                assert(false);
                (ProcessCredentials::new(0, 0, 0), SessionResourceUsage::new())
            },
        };
        let audit = Some(
            AuditRecord {
                kind: AuditEventKind::AddSegment { size: requested_size },
                credentials,
                decision: PolicyDecision::Allow,
            },
        );
        if usage.segment_count >= limits.max_segments {
            return Outcome::answer(
                audit,
                IamResponse::denied(
                    DenialReason::ResourceLimitExceeded,
                    "Maximum segment count reached",
                ),
            );
        }
        if requested_size == 0 {
            return Outcome::answer(
                audit,
                IamResponse::denied(DenialReason::InvalidRequest, "Segment size cannot be zero"),
            );
        }
        match self.segment_manager.allocate_segment_id() {
            Ok(segment_id) => {
                proof {
                    segment_laws::lemma_next_free(table, segment_id.value);
                }
                Outcome {
                    audit,
                    reply: Reply::CreateSegment {
                        order: SegmentOrder {
                            session_id,
                            port_id,
                            segment_id,
                            requested_size,
                            bucket_size,
                            bucket_align,
                        },
                    },
                }
            },
            Err(error) => Outcome::failure(audit, error),
        }
    }

    /// Counts something that a session has brought for it, where the session is still there.
    fn charge(&mut self, session_id: SessionId, holding: Holding, size: usize)
        requires
            old(self)@.counts_further(session_id),
        ensures
            final(self)@ == old(self)@.with_charge(session_id, holding, size),
            final(self).same_setup(old(self)),
    {
        let ghost before = self@;
        if let Some(entry) = self.sessions.remove(&session_id.value) {
            let mut session = entry.session;
            session.resource_usage_mut().add_segment(size);
            self.put_session(session_id, session, entry.handshake_complete);
            self.ledger.push(Charge { session_id, holding, size });
            assert(self@.sessions =~= before.with_charge(session_id, holding, size).sessions);
        } else {
            assert(self@.sessions =~= before.sessions);
        }
    }

    /// Grants a segment to a session, where the session is still there.
    fn grant(&mut self, session_id: SessionId, segment_id: SegmentId)
        requires
            old(self)@.can_grant(session_id, segment_id),
            old(self)@.table.segments.contains_key(segment_id.value),
        ensures
            final(self)@ == old(self)@.with_grant(session_id, segment_id),
            final(self).same_setup(old(self)),
    {
        let ghost before = self@;
        let holding = Holding::Segment { segment_id };
        let size: usize = match self.segment_manager.get(segment_id) {
            Some(segment) => segment.size(),
            None => 0,
        };
        let counted = self.counts(session_id, holding);
        if let Some(entry) = self.sessions.remove(&session_id.value) {
            let mut session = entry.session;
            session.note_segment(segment_id);
            self.put_session(session_id, session, entry.handshake_complete);
            let ghost noted = before.with_session(
                session_id,
                SessionState {
                    granted: before.sessions[session_id.value].session.granted.insert(
                        segment_id.value,
                    ),
                    ..before.sessions[session_id.value].session
                },
            );
            assert(self@.sessions =~= noted.sessions);
            if !counted {
                self.charge(session_id, holding, size);
            }
        } else {
            assert(self@.sessions =~= before.sessions);
        }
    }

    /// Returns `true` if the server holds something.
    fn holds(&self, holding: Holding) -> (held: bool)
        ensures
            held == holding.is_in(self@.table),
    {
        match holding {
            Holding::Segment { segment_id } => self.segment_manager.has_segment(segment_id),
            Holding::Channel { sender_port_id, receiver_port_id } => {
                self.segment_manager.channel_handle(sender_port_id, receiver_port_id).is_some()
            },
            Holding::MgmtSegment { port_id } => {
                self.segment_manager.mgmt_segment_handle(port_id).is_some()
            },
        }
    }

    /// Gives a charge back to its session, where the session is still there.
    fn give_back(&mut self, charge: Charge)
        ensures
            final(self)@ == (ServerState {
                sessions: ledger::refunded(old(self)@.sessions, charge),
                ..old(self)@
            }),
            final(self).same_setup(old(self)),
    {
        let ghost before = self@;
        if let Some(entry) = self.sessions.remove(&charge.session_id.value) {
            let mut session = entry.session;
            let revoked = match charge.holding {
                Holding::Segment { segment_id } => session.revoke_segment(segment_id, charge.size),
                _ => false,
            };
            if !revoked {
                session.resource_usage_mut().remove_segment(charge.size);
            }
            self.put_session(charge.session_id, session, entry.handshake_complete);
        }
        assert(self@.sessions =~= ledger::refunded(before.sessions, charge));
    }

    /// Gives back every charge for something that is gone, or was replaced.
    fn settle(&mut self, replaced: Option<Holding>)
        ensures
            final(self)@ == old(self)@.settled(replaced),
            final(self).same_setup(old(self)),
    {
        let ghost before = self@;
        let ghost keep = |charge: Charge| charge.lasts(before.table, replaced);
        let mut rest: Vec<Charge> = Vec::new();
        assert(before.ledger.take(0).filter(keep) =~= Seq::empty()) by {
            reveal(Seq::filter);
        }
        let mut i: usize = 0;
        while i < self.ledger.len()
            invariant
                i <= self.ledger@.len(),
                self.ledger@ == before.ledger,
                keep == (|charge: Charge| charge.lasts(before.table, replaced)),
                rest@ == before.ledger.take(i as int).filter(keep),
                self@ == (ServerState {
                    sessions: ledger::settled_sessions(
                        before.sessions,
                        before.ledger.take(i as int),
                        before.table,
                        replaced,
                    ),
                    ..before
                }),
                self.same_setup(old(self)),
            decreases self.ledger@.len() - i,
        {
            let charge = self.ledger[i];
            proof {
                reveal(Seq::filter);
                assert(before.ledger.take(i + 1).drop_last() =~= before.ledger.take(i as int));
                assert(before.ledger.take(i + 1).last() == charge);
            }
            let was_replaced = match replaced {
                Some(holding) => holding == charge.holding,
                None => false,
            };
            if self.holds(charge.holding) && !was_replaced {
                rest.push(charge);
            } else {
                self.give_back(charge);
            }
            i += 1;
        }
        assert(before.ledger.take(i as int) =~= before.ledger);
        self.ledger = rest;
    }

    /// Goes on with an ordered segment.
    ///
    /// `created` is what came of creating the segment: its handle and its size, or the error.
    /// `kept` is what came of duplicating that handle for the server, `None` if that failed.
    /// The port's consumers are to be told of the segment afterwards, see
    /// [`IamServer::broadcast_segment_to_consumers`].
    pub fn complete_add_segment(
        &mut self,
        order: SegmentOrder,
        created: Result<(H, usize), IamServerError>,
        kept: Option<H>,
    ) -> (outcome: Outcome<H>)
        requires
            old(self)@.counts_further(order.session_id),
        ensures
            outcome.shows(old(self)@.segment_created(order, created, kept)),
            final(self)@ == old(self)@.segment_created(order, created, kept).state,
            final(self).same_setup(old(self)),
    {
        let (handle, size): (H, usize) = match created {
            Ok(result) => result,
            Err(error) => {
                return match error {
                    IamServerError::SegmentCreationNotSupported => Outcome::answer(
                        None,
                        IamResponse::denied(
                            DenialReason::InvalidRequest,
                            "Segment creation not supported by this service",
                        ),
                    ),
                    IamServerError::SegmentCreationFailed => Outcome::answer(
                        None,
                        IamResponse::denied(
                            DenialReason::InternalError,
                            "Failed to create segment",
                        ),
                    ),
                    _ => Outcome::failure(None, error),
                };
            },
        };
        let own = match kept {
            Some(own) => own,
            None => {
                return Outcome::failure(None, IamServerError::HandlePassingFailed);
            },
        };
        match self.segment_manager.register_segment_with_id(
            order.segment_id,
            own,
            size,
            AccessRights::read_write(),
        ) {
            Ok(()) => {},
            Err(error) => {
                return Outcome::failure(None, error);
            },
        }
        match self.segment_manager.associate_segment_with_port_at_index(
            order.segment_id,
            order.port_id,
            order.segment_id.value,
        ) {
            Ok(()) => {},
            Err(error) => {
                return Outcome::failure(None, error);
            },
        }
        let holding = Holding::Segment { segment_id: order.segment_id };
        proof {
            ledger::lemma_settling_keeps(self@.sessions, self@.ledger, self@.table, Some(holding));
        }
        self.settle(Some(holding));
        self.charge(order.session_id, holding, size);
        Outcome::hand_out(
            IamResponse::AddSegmentOk { segment_id: order.segment_id, size, handle_count: 1 },
            handle,
        )
    }
}

/// What consumers there are.
spec fn consumer_states(list: Seq<Consumer>) -> Seq<ConsumerState> {
    list.map_values(|consumer: Consumer| consumer@)
}

proof fn lemma_consumer_states_take(list: Seq<Consumer>, i: int)
    requires
        0 <= i < list.len(),
    ensures
        consumer_states(list).take(i + 1).drop_last() == consumer_states(list).take(i),
        consumer_states(list).take(i + 1).last() == list[i]@,
{
    assert(consumer_states(list).take(i + 1).drop_last() =~= consumer_states(list).take(i));
}

/// Who can be granted a segment still can once another session was granted it.
proof fn lemma_granting_takes_nothing<H>(
    state: ServerState<H>,
    session_id: SessionId,
    segment_id: SegmentId,
)
    requires
        state.can_grant(session_id, segment_id),
    ensures
        forall|other: SessionId| #[trigger]
            state.can_grant(other, segment_id) ==> state.with_grant(session_id, segment_id).can_grant(
                other,
                segment_id,
            ),
{
    let holding = Holding::Segment { segment_id };
    let after = state.with_grant(session_id, segment_id);
    assert forall|other: SessionId| #[trigger] state.can_grant(
        other,
        segment_id,
    ) implies after.can_grant(other, segment_id) by {
        let size = state.table.segments[segment_id.value].size;
        let charge = Charge { session_id, holding, size };
        ledger::lemma_charged_with(state.ledger, charge, other, holding);
        ledger::lemma_charged_with(state.ledger, charge, session_id, holding);
        if other.value == session_id.value {
            assert(other == session_id);
        }
    }
}

/// Returns the consumers without a port of a session.
fn consumers_without_port(list: &Vec<Consumer>, session_id: SessionId, port_id: u128) -> (rest: Vec<
    Consumer,
>)
    ensures
        consumer_states(rest@) == consumer_states(list@).filter(
            |consumer: ConsumerState|
                !(consumer.session_id == session_id && consumer.port_id == port_id),
        ),
{
    let ghost keep = |consumer: ConsumerState|
        !(consumer.session_id == session_id && consumer.port_id == port_id);
    let ghost all = consumer_states(list@);
    let mut rest: Vec<Consumer> = Vec::new();
    assert(all.take(0).filter(keep) =~= Seq::empty()) by {
        reveal(Seq::filter);
    }
    assert(consumer_states(rest@) =~= Seq::empty());
    let mut i: usize = 0;
    while i < list.len()
        invariant
            i <= list@.len(),
            all == consumer_states(list@),
            keep == (|consumer: ConsumerState|
                !(consumer.session_id == session_id && consumer.port_id == port_id)),
            consumer_states(rest@) == all.take(i as int).filter(keep),
        decreases list@.len() - i,
    {
        proof {
            reveal(Seq::filter);
            lemma_consumer_states_take(list@, i as int);
        }
        let consumer = &list[i];
        if !(consumer.session_id.value == session_id.value && consumer.port_id == port_id) {
            let ghost before = rest@;
            rest.push(consumer.copy());
            assert(consumer_states(rest@) =~= consumer_states(before).push(consumer@));
        }
        i += 1;
    }
    assert(all.take(i as int) =~= all);
    rest
}

/// Returns the consumers without those of a session.
fn consumers_without_session(list: &Vec<Consumer>, session_id: SessionId) -> (rest: Vec<Consumer>)
    ensures
        consumer_states(rest@) == consumer_states(list@).filter(
            |consumer: ConsumerState| consumer.session_id != session_id,
        ),
{
    let ghost keep = |consumer: ConsumerState| consumer.session_id != session_id;
    let ghost all = consumer_states(list@);
    let mut rest: Vec<Consumer> = Vec::new();
    assert(all.take(0).filter(keep) =~= Seq::empty()) by {
        reveal(Seq::filter);
    }
    assert(consumer_states(rest@) =~= Seq::empty());
    let mut i: usize = 0;
    while i < list.len()
        invariant
            i <= list@.len(),
            all == consumer_states(list@),
            keep == (|consumer: ConsumerState| consumer.session_id != session_id),
            consumer_states(rest@) == all.take(i as int).filter(keep),
        decreases list@.len() - i,
    {
        proof {
            reveal(Seq::filter);
            lemma_consumer_states_take(list@, i as int);
        }
        let consumer = &list[i];
        if consumer.session_id.value != session_id.value {
            let ghost before = rest@;
            rest.push(consumer.copy());
            assert(consumer_states(rest@) =~= consumer_states(before).push(consumer@));
        }
        i += 1;
    }
    assert(all.take(i as int) =~= all);
    rest
}

/// Returns the charges without those of a session.
fn charges_without_session(list: &Vec<Charge>, session_id: SessionId) -> (rest: Vec<Charge>)
    ensures
        rest@ == list@.filter(|charge: Charge| charge.session_id != session_id),
{
    let ghost keep = |charge: Charge| charge.session_id != session_id;
    let mut rest: Vec<Charge> = Vec::new();
    assert(list@.take(0).filter(keep) =~= Seq::empty()) by {
        reveal(Seq::filter);
    }
    let mut i: usize = 0;
    while i < list.len()
        invariant
            i <= list@.len(),
            keep == (|charge: Charge| charge.session_id != session_id),
            rest@ == list@.take(i as int).filter(keep),
        decreases list@.len() - i,
    {
        proof {
            reveal(Seq::filter);
            assert(list@.take(i + 1).drop_last() =~= list@.take(i as int));
        }
        if list[i].session_id.value != session_id.value {
            rest.push(list[i]);
        }
        i += 1;
    }
    assert(list@.take(i as int) =~= list@);
    rest
}

impl<P, H> IamServer<P, H> {
    /// Reaps everything that a port has registered and every channel that ends at it.
    fn reap_port(&mut self, port_id: u128)
        ensures
            final(self)@ == (ServerState {
                table: old(self)@.table.without_port(port_id),
                ..old(self)@
            }),
            final(self).same_setup(old(self)),
    {
        self.segment_manager.remove_all_segments_for_port(port_id);
        self.segment_manager.remove_mgmt_segment_for_port(port_id);
        self.segment_manager.remove_channels_for_sender_port(port_id);
        self.segment_manager.remove_channels_for_receiver_port(port_id);
    }

    /// Handles Detach request.
    ///
    /// All that a port can hold is reaped whatever its type: a client is also a producer of
    /// requests, a server also a consumer of them.
    fn handle_detach(&mut self, session_id: SessionId, port_id: u128) -> (outcome: Outcome<H>)
        requires
            old(self)@.sessions.contains_key(session_id.value),
        ensures
            outcome.shows(old(self)@.detach(session_id, port_id)),
            final(self)@ == old(self)@.detach(session_id, port_id).state,
            final(self).same_setup(old(self)),
    {
        let ghost before = self@;
        let mut port_type: Option<PortType> = None;
        let mut credentials = ProcessCredentials::new(0, 0, 0);
        if let Some(entry) = self.sessions.remove(&session_id.value) {
            let mut session = entry.session;
            port_type = session.port_type(port_id);
            credentials = *session.credentials();
            session.remove_port(port_id);
            self.put_session(session_id, session, entry.handshake_complete);
        }
        self.reap_port(port_id);
        match port_type {
            Some(PortType::Publisher) | Some(PortType::Server) => {
                self.port_to_service.remove(&port_id);
            },
            Some(PortType::Subscriber) | Some(PortType::Client) => {
                self.service_consumers = consumers_without_port(
                    &self.service_consumers,
                    session_id,
                    port_id,
                );
            },
            None => {},
        }
        proof {
            let after = before.without_port(session_id, port_id);
            assert(self@.sessions =~= after.sessions);
            assert(self@.consumers =~= after.consumers);
            assert(self@.producers =~= after.producers);
            assert(self@ =~= after);
        }
        self.settle(None);
        Outcome::answer(
            Some(
                AuditRecord {
                    kind: AuditEventKind::Detach { port_id },
                    credentials,
                    decision: PolicyDecision::Allow,
                },
            ),
            IamResponse::DetachOk,
        )
    }

    /// Handles AckSegmentRetirement request.
    ///
    /// Only a session that has the retirement pending can acknowledge it.
    fn handle_ack_retirement(&mut self, session_id: SessionId, segment_id: SegmentId) -> (outcome:
        Outcome<H>)
        requires
            old(self)@.sessions.contains_key(session_id.value),
        ensures
            outcome.shows(old(self)@.ack_retirement(session_id, segment_id)),
            final(self)@ == old(self)@.ack_retirement(session_id, segment_id).state,
            final(self).same_setup(old(self)),
    {
        let ghost before = self@;
        let has_pending = match self.sessions.get(&session_id.value) {
            Some(entry) => entry.session.has_pending_retirement(segment_id),
            None => false,
        };
        if !has_pending {
            return Outcome::answer(
                None,
                IamResponse::denied(
                    DenialReason::Unauthorized,
                    "Session not authorized for this segment retirement",
                ),
            );
        }
        if let Some(entry) = self.sessions.remove(&session_id.value) {
            let mut session = entry.session;
            session.ack_retirement(segment_id);
            self.put_session(session_id, session, entry.handshake_complete);
        }
        self.segment_manager.ack_retirement(segment_id, session_id);
        proof {
            let session = before.sessions[session_id.value].session;
            let after = before.with_session(
                session_id,
                SessionState { pending: session.pending.remove(segment_id.value), ..session },
            );
            assert(self@.sessions =~= after.sessions);
        }
        self.settle(None);
        Outcome::answer(None, IamResponse::AckOk)
    }

    /// Handles `RequestSegmentHandle`: grants the first segment of a port.
    fn handle_request_segment_handle(
        &mut self,
        session_id: SessionId,
        sender_port_id: u128,
        duplicate: Option<H>,
    ) -> (outcome: Outcome<H>)
        requires
            old(self)@.counts_further(session_id),
        ensures
            outcome.shows(old(self)@.request_segment(session_id, sender_port_id, duplicate)),
            final(self)@ == old(self)@.request_segment(
                session_id,
                sender_port_id,
                duplicate,
            ).state,
            final(self).same_setup(old(self)),
    {
        match self.segment_manager.get_segment_handle_for_consumer(
            sender_port_id,
            session_id,
            duplicate,
        ) {
            Some((segment_info, handle)) => {
                self.grant(session_id, segment_info.segment_id);
                Outcome::hand_out(
                    IamResponse::SegmentHandleOk { segment_info, handle_count: 1 },
                    handle,
                )
            },
            None => Outcome::answer(None, IamResponse::SegmentHandleNotFound),
        }
    }

    /// Handles `RequestDynamicSegmentHandle`: grants the segment at an index of a port.
    fn handle_request_dynamic_segment_handle(
        &mut self,
        session_id: SessionId,
        sender_port_id: u128,
        segment_index: u8,
        duplicate: Option<H>,
    ) -> (outcome: Outcome<H>)
        requires
            old(self)@.counts_further(session_id),
        ensures
            outcome.shows(
                old(self)@.request_dynamic_segment(
                    session_id,
                    sender_port_id,
                    segment_index,
                    duplicate,
                ),
            ),
            final(self)@ == old(self)@.request_dynamic_segment(
                session_id,
                sender_port_id,
                segment_index,
                duplicate,
            ).state,
            final(self).same_setup(old(self)),
    {
        match self.segment_manager.get_dynamic_segment_handle(
            sender_port_id,
            segment_index,
            session_id,
            duplicate,
        ) {
            Some((segment_info, handle)) => {
                self.grant(session_id, segment_info.segment_id);
                Outcome::hand_out(
                    IamResponse::DynamicSegmentHandleOk { segment_info, handle_count: 1 },
                    handle,
                )
            },
            None => Outcome::answer(None, IamResponse::DynamicSegmentPending),
        }
    }

    /// Handles `RequestChannelHandle`: hands out the channel between two ports.
    fn handle_request_channel_handle(
        &mut self,
        session_id: SessionId,
        sender_port_id: u128,
        receiver_port_id: u128,
        duplicate: Option<H>,
    ) -> (outcome: Outcome<H>)
        ensures
            outcome.shows(
                old(self)@.request_channel(
                    session_id,
                    (sender_port_id, receiver_port_id),
                    duplicate,
                ),
            ),
            final(self)@ == old(self)@.request_channel(
                session_id,
                (sender_port_id, receiver_port_id),
                duplicate,
            ).state,
            final(self).same_setup(old(self)),
    {
        match self.segment_manager.get_channel_handle_for_consumer(
            sender_port_id,
            receiver_port_id,
            session_id,
            duplicate,
        ) {
            Some((segment_info, handle)) => Outcome::hand_out(
                IamResponse::ChannelHandleOk { segment_info, handle_count: 1 },
                handle,
            ),
            None => Outcome::answer(None, IamResponse::ChannelHandleNotFound),
        }
    }

    /// Handles `RequestMgmtSegmentHandle`: hands out the management segment of a port.
    fn handle_request_mgmt_segment_handle(
        &mut self,
        session_id: SessionId,
        port_id: u128,
        duplicate: Option<H>,
    ) -> (outcome: Outcome<H>)
        ensures
            outcome.shows(old(self)@.request_mgmt_segment(session_id, port_id, duplicate)),
            final(self)@ == old(self)@.request_mgmt_segment(session_id, port_id, duplicate).state,
            final(self).same_setup(old(self)),
    {
        match self.segment_manager.get_mgmt_segment_handle_for_consumer(
            port_id,
            session_id,
            duplicate,
        ) {
            Some((segment_info, handle)) => Outcome::hand_out(
                IamResponse::MgmtSegmentHandleOk { segment_info, handle_count: 1 },
                handle,
            ),
            None => Outcome::answer(None, IamResponse::MgmtSegmentHandleNotFound),
        }
    }

    /// Returns the one handle that a request for a handle asks for a duplicate of.
    fn wanted_handle(&self, request: &IamRequest) -> (handle: Option<&H>)
        ensures
            match handle {
                Some(found) => self@.wanted_handle(*request) == Some(*found),
                None => self@.wanted_handle(*request) is None,
            },
    {
        match request {
            IamRequest::RequestSegmentHandle { sender_port_id, .. } => {
                self.segment_manager.segment_handle_for_port(*sender_port_id)
            },
            IamRequest::RequestDynamicSegmentHandle { sender_port_id, segment_id, .. } => {
                self.segment_manager.dynamic_segment_handle_for_port(*sender_port_id, *segment_id)
            },
            IamRequest::RequestChannelHandle { sender_port_id, receiver_port_id, .. } => {
                self.segment_manager.channel_handle(*sender_port_id, *receiver_port_id)
            },
            IamRequest::RequestMgmtSegmentHandle { port_id, .. } => {
                self.segment_manager.mgmt_segment_handle(*port_id)
            },
            _ => None,
        }
    }

    /// Returns the handles that a request of a session asks for duplicates of: a subscriber those
    /// of the segments that it is offered, a request for a handle that one.
    pub fn wanted_handles(&self, session_id: SessionId, request: &IamRequest) -> (handles: Vec<&H>)
        ensures
            handles@.map_values(|handle: &H| *handle) == self@.wanted_handles(session_id, *request),
    {
        let ghost value = |handle: &H| *handle;
        let mut handles: Vec<&H> = Vec::new();
        match request {
            IamRequest::AttachSubscriber { .. } => {
                handles = self.segment_manager.get_session_handles(session_id);
                let ghost all = handles@;
                if handles.len() > MAX_HANDLES_PER_MESSAGE {
                    handles.truncate(MAX_HANDLES_PER_MESSAGE);
                    assert(handles@.map_values(value) =~= all.map_values(value).take(
                        MAX_HANDLES_PER_MESSAGE as int,
                    ));
                }
                assert(all.len() == all.map_values(value).len());
            },
            _ => {
                if let Some(handle) = self.wanted_handle(request) {
                    handles.push(handle);
                }
                assert(handles@.map_values(value) =~= self@.wanted_handles(session_id, *request));
            },
        }
        handles
    }

    /// Removes a session and cleans up its resources.
    pub fn remove_session(&mut self, session_id: SessionId)
        ensures
            final(self)@ == old(self)@.removed(session_id),
            final(self).same_setup(old(self)),
    {
        let ghost before = self@;
        let ports: Vec<PortInfo> = match self.sessions.get(&session_id.value) {
            Some(entry) => {
                let ports = entry.session.ports().clone();
                assert(ports@ =~= entry.session@.ports);
                ports
            },
            None => Vec::new(),
        };
        let ghost all = if before.sessions.contains_key(session_id.value) {
            before.sessions[session_id.value].session.ports
        } else {
            Seq::empty()
        };
        assert(ports@ =~= all);
        let mut i: usize = 0;
        while i < ports.len()
            invariant
                i <= ports@.len(),
                before == old(self)@,
                self.same_setup(old(self)),
                self@ == (ServerState {
                    table: server_state::table_without_ports(
                        before.table,
                        ports@.take(i as int),
                    ),
                    producers: server_state::producers_without_ports(
                        before.producers,
                        ports@.take(i as int),
                    ),
                    ..before
                }),
            decreases ports@.len() - i,
        {
            let port = ports[i];
            assert(ports@.take(i + 1).drop_last() =~= ports@.take(i as int));
            assert(ports@.take(i + 1).last() == port);
            self.reap_port(port.port_id);
            match port.port_type {
                PortType::Publisher | PortType::Server => {
                    self.port_to_service.remove(&port.port_id);
                },
                PortType::Subscriber | PortType::Client => {},
            }
            i += 1;
        }
        assert(ports@.take(i as int) =~= ports@);
        self.service_consumers = consumers_without_session(&self.service_consumers, session_id);
        self.segment_manager.revoke_session(session_id);
        self.sessions.remove(&session_id.value);
        self.ledger = charges_without_session(&self.ledger, session_id);
        assert(self@ =~= before.without_session(session_id)) by {
            assert(self@.sessions =~= before.without_session(session_id).sessions);
        }
        self.settle(None);
    }

    /// Settles a turn of a session: the number of requests that it has processed counts, and a
    /// session whose turn failed is removed.
    pub fn settle_turn(
        &mut self,
        session_id: SessionId,
        turn: Result<usize, IamServerError>,
    ) -> (processed: usize)
        ensures
            match turn {
                Ok(count) => processed == count && final(self)@ == old(self)@,
                Err(_) => processed == 0 && final(self)@ == old(self)@.removed(session_id),
            },
            final(self).same_setup(old(self)),
    {
        match turn {
            Ok(count) => count,
            Err(_) => {
                self.remove_session(session_id);
                0
            },
        }
    }
}

/// What one consumer of a new segment is sent.
#[derive(Debug)]
pub struct Notice<H> {
    /// The session of the consumer.
    pub session_id: SessionId,
    /// The notification.
    pub notification: IamNotification,
    /// The handle that goes with it.
    pub handle: H,
}

impl<H> View for Notice<H> {
    type V = NoticeState<H>;

    open spec fn view(&self) -> NoticeState<H> {
        NoticeState {
            session_id: self.session_id,
            notification: self.notification,
            handle: self.handle,
        }
    }
}

/// What several consumers are sent.
pub open spec fn notice_states<H>(list: Seq<Notice<H>>) -> Seq<NoticeState<H>> {
    list.map_values(|notice: Notice<H>| notice@)
}

impl<P, H> IamServer<P, H> {
    /// Judges a registration that the policy allows by the limits that the policy sets.
    pub fn register_within(
        &self,
        session_id: SessionId,
        registration: Registration,
        handle_count: usize,
        limits: &ResourceLimits,
    ) -> (outcome: Outcome<H>)
        requires
            self@.sessions.contains_key(session_id.value),
        ensures
            outcome.shows(
                self@.register_within(session_id, registration, handle_count, *limits),
            ),
    {
        let (credentials, usage): (ProcessCredentials, SessionResourceUsage) =
            match self.sessions.get(&session_id.value) {
            Some(entry) => (*entry.session.credentials(), *entry.session.resource_usage()),
            None => {
                assert(false);
                (ProcessCredentials::new(0, 0, 0), SessionResourceUsage::new())
            },
        };
        let audit = Some(
            AuditRecord {
                kind: AuditEventKind::AddSegment { size: registration.stated_size() },
                credentials,
                decision: PolicyDecision::Allow,
            },
        );
        if usage.segment_count >= limits.max_segments {
            return Outcome::answer(
                audit,
                IamResponse::denied(
                    DenialReason::ResourceLimitExceeded,
                    "Maximum segment count reached",
                ),
            );
        }
        if handle_count == 0 {
            return Outcome::answer(
                audit,
                IamResponse::protocol_error(
                    match registration {
                        Registration::Segment { .. } => {
                            "RegisterSegment requires at least one handle"
                        },
                        Registration::DynamicSegment { .. } => {
                            "RegisterDynamicSegment requires at least one handle"
                        },
                        Registration::Channel { .. } => {
                            "RegisterChannel requires at least one handle"
                        },
                        Registration::MgmtSegment { .. } => {
                            "RegisterMgmtSegment requires at least one handle"
                        },
                    },
                ),
            );
        }
        if handle_count > MAX_HANDLES_PER_MESSAGE {
            return Outcome::answer(
                audit,
                IamResponse::protocol_error(
                    match registration {
                        Registration::Segment { .. } => {
                            "RegisterSegment announces too many handles"
                        },
                        Registration::DynamicSegment { .. } => {
                            "RegisterDynamicSegment announces too many handles"
                        },
                        Registration::Channel { .. } => {
                            "RegisterChannel announces too many handles"
                        },
                        Registration::MgmtSegment { .. } => {
                            "RegisterMgmtSegment announces too many handles"
                        },
                    },
                ),
            );
        }
        Outcome {
            audit,
            reply: Reply::ReceiveHandles { order: HandleOrder { session_id, registration } },
        }
    }

    /// Registers a handle: data segments are shared for reading only, as are management
    /// segments; channels for reading and writing.
    fn file(&mut self, registration: Registration, handle: H) -> (result: Result<
        (Holding, IamResponse),
        IamServerError,
    >)
        ensures
            match result {
                Ok((holding, response)) => old(self)@.filed(registration, handle) == Ok::<
                    (SegmentTable<H>, Holding, Answer),
                    IamServerError,
                >((final(self)@.table, holding, response@)) && final(self)@ == (ServerState {
                    table: final(self)@.table,
                    ..old(self)@
                }),
                Err(error) => old(self)@.filed(registration, handle) == Err::<
                    (SegmentTable<H>, Holding, Answer),
                    IamServerError,
                >(error) && final(self)@ == old(self)@,
            },
            final(self).same_setup(old(self)),
    {
        let ghost table = self@.table;
        match registration {
            Registration::Segment { port_id, segment_size } => {
                match self.segment_manager.register_segment_for_port(
                    port_id,
                    handle,
                    segment_size,
                    AccessRights::read_only(),
                ) {
                    Ok(segment_id) => {
                        proof {
                            segment_laws::lemma_next_free(table, segment_id.value);
                        }
                        Ok(
                            (
                                Holding::Segment { segment_id },
                                IamResponse::RegisterSegmentOk { segment_id },
                            ),
                        )
                    },
                    Err(error) => Err(error),
                }
            },
            Registration::DynamicSegment { port_id, segment_index, segment_size } => {
                match self.segment_manager.register_dynamic_segment_for_port(
                    port_id,
                    segment_index,
                    handle,
                    segment_size,
                    AccessRights::read_only(),
                ) {
                    Ok(segment_id) => {
                        proof {
                            segment_laws::lemma_next_free(table, segment_id.value);
                        }
                        Ok(
                            (
                                Holding::Segment { segment_id },
                                IamResponse::RegisterDynamicSegmentOk { segment_id: segment_index },
                            ),
                        )
                    },
                    Err(error) => Err(error),
                }
            },
            Registration::Channel { sender_port_id, receiver_port_id, channel_size } => {
                match self.segment_manager.register_channel(
                    sender_port_id,
                    receiver_port_id,
                    handle,
                    channel_size,
                ) {
                    Ok(()) => Ok(
                        (
                            Holding::Channel { sender_port_id, receiver_port_id },
                            IamResponse::RegisterChannelOk,
                        ),
                    ),
                    Err(error) => Err(error),
                }
            },
            Registration::MgmtSegment { port_id, mgmt_size } => {
                match self.segment_manager.register_mgmt_segment(port_id, handle, mgmt_size) {
                    Ok(()) => Ok(
                        (Holding::MgmtSegment { port_id }, IamResponse::RegisterMgmtSegmentOk),
                    ),
                    Err(error) => Err(error),
                }
            },
        }
    }

    /// Goes on with a registration once its handles were received. The first handle is
    /// registered.
    pub fn complete_registration(&mut self, order: HandleOrder, handles: Vec<H>) -> (outcome: Outcome<
        H,
    >)
        requires
            old(self)@.counts_further(order.session_id),
        ensures
            outcome.shows(old(self)@.handles_received(order, handles@)),
            final(self)@ == old(self)@.handles_received(order, handles@).state,
            final(self).same_setup(old(self)),
    {
        if handles.is_empty() {
            return Outcome::failure(None, IamServerError::HandlePassingFailed);
        }
        let mut handles = handles;
        let handle = handles.remove(0);
        match self.file(order.registration, handle) {
            Ok((holding, response)) => {
                proof {
                    ledger::lemma_settling_keeps(
                        self@.sessions,
                        self@.ledger,
                        self@.table,
                        Some(holding),
                    );
                }
                self.settle(Some(holding));
                self.charge(order.session_id, holding, order.registration.stated_size());
                Outcome::answer(None, response)
            },
            Err(error) => Outcome::failure(None, error),
        }
    }

    /// Returns the sessions and ports that are told of new segments of a service.
    pub fn consumers_of(&self, service_id: &ServiceId) -> (consumers: Vec<(SessionId, u128)>)
        ensures
            consumers@ == self@.consumers_of(service_id@),
    {
        let ghost keep = |consumer: ConsumerState| consumer.service == service_id@;
        let ghost pick = |consumer: ConsumerState| (consumer.session_id, consumer.port_id);
        let ghost all = self@.consumers;
        let mut consumers: Vec<(SessionId, u128)> = Vec::new();
        assert(all.take(0).filter(keep) =~= Seq::empty()) by {
            reveal(Seq::filter);
        }
        assert(consumers@ =~= all.take(0).filter(keep).map_values(pick));
        let mut i: usize = 0;
        while i < self.service_consumers.len()
            invariant
                i <= self.service_consumers@.len(),
                all == consumer_states(self.service_consumers@),
                keep == (|consumer: ConsumerState| consumer.service == service_id@),
                pick == (|consumer: ConsumerState| (consumer.session_id, consumer.port_id)),
                consumers@ == all.take(i as int).filter(keep).map_values(pick),
            decreases self.service_consumers@.len() - i,
        {
            proof {
                reveal(Seq::filter);
                lemma_consumer_states_take(self.service_consumers@, i as int);
            }
            let consumer = &self.service_consumers[i];
            if consumer.service_id.is_same(service_id) {
                let ghost before = consumers@;
                consumers.push((consumer.session_id, consumer.port_id));
                assert(all.take(i + 1).filter(keep) == all.take(i as int).filter(keep).push(
                    consumer@,
                ));
                assert(all.take(i + 1).filter(keep).map_values(pick) =~= before.push(
                    (consumer.session_id, consumer.port_id),
                ));
            }
            i += 1;
        }
        assert(all.take(i as int) =~= all);
        consumers
    }

    /// Tells the consumers of a service of a new segment.
    ///
    /// For each of [`IamServer::consumers_of`] the service, in this order, `copies` holds what
    /// came of duplicating the segment's handle twice: for the consumer, and for the grant. A
    /// consumer is passed over, and not authorized, where one of them is missing. The notices
    /// are for the consumers whose session is there.
    pub fn broadcast_segment_to_consumers(
        &mut self,
        service_id: &ServiceId,
        segment_id: SegmentId,
        segment_size: usize,
        copies: Vec<(Option<H>, Option<H>)>,
    ) -> (notices: Vec<Notice<H>>)
        requires
            copies@.len() == old(self)@.consumers_of(service_id@).len(),
            forall|i: int|
                0 <= i < copies@.len() ==> old(self)@.can_grant(
                    (#[trigger] old(self)@.consumers_of(service_id@)[i]).0,
                    segment_id,
                ),
        ensures
            notice_states(notices@) == server_state::notices(
                old(self)@,
                segment_id,
                segment_size,
                old(self)@.consumers_of(service_id@),
                copies@,
                copies@.len() as int,
            ),
            final(self)@ == server_state::after_broadcast(
                old(self)@,
                segment_id,
                old(self)@.consumers_of(service_id@),
                copies@,
                copies@.len() as int,
            ),
            final(self).same_setup(old(self)),
    {
        let ghost before = self@;
        let ghost all = copies@;
        let consumers = self.consumers_of(service_id);
        let mut copies = copies;
        let mut notices: Vec<Notice<H>> = Vec::new();
        assert(notice_states(notices@) =~= Seq::empty());
        let mut i: usize = 0;
        while i < consumers.len()
            invariant
                i <= consumers@.len(),
                before == old(self)@,
                self.same_setup(old(self)),
                consumers@ == before.consumers_of(service_id@),
                all.len() == consumers@.len(),
                copies@ == all.skip(i as int),
                self@ == server_state::after_broadcast(
                    before,
                    segment_id,
                    consumers@,
                    all,
                    i as int,
                ),
                self@.sessions.dom() == before.sessions.dom(),
                forall|j: int|
                    0 <= j < consumers@.len() ==> self@.can_grant(
                        (#[trigger] consumers@[j]).0,
                        segment_id,
                    ),
                self@.table.grantable(segment_id.value) == before.table.grantable(
                    segment_id.value,
                ),
                notice_states(notices@) == server_state::notices(
                    before,
                    segment_id,
                    segment_size,
                    consumers@,
                    all,
                    i as int,
                ),
            decreases consumers@.len() - i,
        {
            let consumer_session_id = consumers[i].0;
            let ghost table = self@.table;
            let (sent, kept): (Option<H>, Option<H>) = copies.remove(0);
            assert(copies@ =~= all.skip(i + 1));
            assert((sent, kept) == all[i as int]);
            if let Some(handle) = sent {
                let authorized = self.segment_manager.authorize_session(
                    segment_id,
                    consumer_session_id,
                    kept,
                ).is_ok();
                if authorized {
                    let ghost shared = self@;
                    assert(self@.can_grant(consumers@[i as int].0, segment_id));
                    self.grant(consumer_session_id, segment_id);
                    proof {
                        assert(self@.sessions.dom() =~= shared.sessions.dom());
                        lemma_granting_takes_nothing(shared, consumer_session_id, segment_id);
                        assert forall|j: int| 0 <= j < consumers@.len() implies self@.can_grant(
                            (#[trigger] consumers@[j]).0,
                            segment_id,
                        ) by {
                            assert(shared.can_grant(consumers@[j].0, segment_id));
                        }
                    }
                }
                if authorized && self.sessions.contains_key(&consumer_session_id.value) {
                    let ghost earlier = notices@;
                    notices.push(
                        Notice {
                            session_id: consumer_session_id,
                            notification: IamNotification::SegmentUpdate {
                                segment_id,
                                size: segment_size,
                                handle_count: 1,
                            },
                            handle,
                        },
                    );
                    assert(notice_states(notices@) =~= notice_states(earlier).push(
                        notices@.last()@,
                    ));
                }
            }
            i += 1;
        }
        notices
    }

    /// Registers an externally created segment.
    pub fn register_segment(&mut self, handle: H, size: usize, access: AccessRights) -> (result:
        Result<SegmentId, IamServerError>)
        ensures
            segment_manager::registration(old(self)@.table, size, result),
            final(self)@ == (match result {
                Ok(id) => ServerState {
                    table: old(self)@.table.scanned_past(id.value).with_segment(
                        id,
                        handle,
                        size,
                        access,
                    ),
                    ..old(self)@
                },
                Err(_) => old(self)@,
            }),
            final(self).same_setup(old(self)),
    {
        self.segment_manager.register_segment(handle, size, access)
    }

    /// Authorizes a session to access a segment and hands on a duplicate of its handle.
    ///
    /// `duplicate` is what duplicating the segment's handle gave. A session that does not exist
    /// is [`IamServerError::SessionNotFound`]; the other errors are those of
    /// [`SegmentManager::authorize_session`].
    pub fn authorize_segment_access(
        &mut self,
        segment_id: SegmentId,
        session_id: SessionId,
        duplicate: Option<H>,
    ) -> (result: Result<H, IamServerError>)
        requires
            old(self)@.can_grant(session_id, segment_id),
        ensures
            result == (if old(self)@.sessions.contains_key(session_id.value) {
                segment_manager::authorization(
                    old(self)@.table.grantable(segment_id.value),
                    duplicate,
                )
            } else {
                Err(IamServerError::SessionNotFound)
            }),
            final(self)@ == (if result is Ok {
                ServerState {
                    table: old(self)@.table.with_session(segment_id.value, session_id.value),
                    ..old(self)@
                }.with_grant(session_id, segment_id)
            } else {
                old(self)@
            }),
            final(self).same_setup(old(self)),
    {
        if !self.sessions.contains_key(&session_id.value) {
            return Err(IamServerError::SessionNotFound);
        }
        match self.segment_manager.authorize_session(segment_id, session_id, duplicate) {
            Ok(handle) => {
                self.grant(session_id, segment_id);
                Ok(handle)
            },
            Err(error) => Err(error),
        }
    }

    /// Notes in each of several sessions, where it is there, that the client has to acknowledge
    /// the retirement of a segment.
    fn add_pending_retirements(&mut self, segment_id: SegmentId, sessions: &Vec<SessionId>)
        ensures
            final(self)@ == (ServerState {
                sessions: old(self)@.sessions.map_entries(
                    |key: u64, entry: EntryState|
                        if sessions@.contains(SessionId { value: key }) {
                            entry.with_pending(segment_id.value)
                        } else {
                            entry
                        },
                ),
                ..old(self)@
            }),
            final(self).same_setup(old(self)),
    {
        let ghost before = self@.sessions;
        let ghost asked = |n: int, key: u64| sessions@.take(n).contains(SessionId { value: key });
        let mut i: usize = 0;
        while i < sessions.len()
            invariant
                i <= sessions@.len(),
                asked == (|n: int, key: u64|
                    sessions@.take(n).contains(SessionId { value: key })),
                self@ == (ServerState { sessions: self@.sessions, ..old(self)@ }),
                self.same_setup(old(self)),
                self@.sessions.dom() == before.dom(),
                forall|key: u64| #[trigger]
                    before.contains_key(key) ==> self@.sessions[key] == (if asked(i as int, key) {
                        before[key].with_pending(segment_id.value)
                    } else {
                        before[key]
                    }),
            decreases sessions@.len() - i,
        {
            let session_id = sessions[i];
            if let Some(entry) = self.sessions.remove(&session_id.value) {
                let mut session = entry.session;
                session.add_pending_retirement(segment_id);
                self.put_session(session_id, session, entry.handshake_complete);
            }
            proof {
                assert forall|key: u64| #[trigger] before.contains_key(key) implies self@.sessions[key]
                    == (if asked(i + 1, key) {
                    before[key].with_pending(segment_id.value)
                } else {
                    before[key]
                }) by {
                    lemma_contains_next(sessions@, i as int, SessionId { value: key });
                    assert(before[key].with_pending(segment_id.value).with_pending(segment_id.value)
                        =~= before[key].with_pending(segment_id.value));
                }
                assert(self@.sessions.dom() =~= before.dom());
            }
            i += 1;
        }
        proof {
            assert(sessions@.take(i as int) =~= sessions@);
            assert(self@.sessions =~= before.map_entries(
                |key: u64, entry: EntryState|
                    if sessions@.contains(SessionId { value: key }) {
                        entry.with_pending(segment_id.value)
                    } else {
                        entry
                    },
            ));
        }
    }

    /// Begins segment retirement and returns the sessions that need to acknowledge it, each of
    /// them once, or `None` if the segment does not exist. The sessions track the
    /// acknowledgments that are pending.
    pub fn begin_segment_retirement(&mut self, segment_id: SegmentId) -> (sessions: Option<
        Vec<SessionId>,
    >)
        ensures
            match sessions {
                Some(list) => {
                    let retired = old(self)@.table.segments[segment_id.value].retired();
                    &&& old(self)@.table.segments.contains_key(segment_id.value)
                    &&& list@.no_duplicates()
                    &&& forall|id: SessionId| #[trigger]
                        list@.contains(id) <==> retired.pending.contains(id.value)
                    &&& final(self)@ == old(self)@.with_retirement(segment_id)
                },
                None => !old(self)@.table.segments.contains_key(segment_id.value) && final(self)@
                    == old(self)@,
            },
            final(self).same_setup(old(self)),
    {
        match self.segment_manager.begin_retirement(segment_id) {
            Some(pending) => {
                let sessions = session_list(&pending);
                self.add_pending_retirements(segment_id, &sessions);
                assert(self@.sessions =~= old(self)@.with_retirement(segment_id).sessions);
                Some(sessions)
            },
            None => None,
        }
    }

    /// Returns those of several sessions that are there, in the same order: a notification that
    /// is broadcast goes to them.
    pub fn known_sessions(&self, session_ids: &Vec<SessionId>) -> (known: Vec<SessionId>)
        ensures
            known@ == session_ids@.filter(|id: SessionId| self@.sessions.contains_key(id.value)),
    {
        let ghost keep = |id: SessionId| self@.sessions.contains_key(id.value);
        let mut known: Vec<SessionId> = Vec::new();
        assert(session_ids@.take(0).filter(keep) =~= Seq::empty()) by {
            reveal(Seq::filter);
        }
        let mut i: usize = 0;
        while i < session_ids.len()
            invariant
                i <= session_ids@.len(),
                keep == (|id: SessionId| self@.sessions.contains_key(id.value)),
                known@ == session_ids@.take(i as int).filter(keep),
            decreases session_ids@.len() - i,
        {
            proof {
                reveal(Seq::filter);
                assert(session_ids@.take(i + 1).drop_last() =~= session_ids@.take(i as int));
            }
            if self.sessions.contains_key(&session_ids[i].value) {
                known.push(session_ids[i]);
            }
            i += 1;
        }
        assert(session_ids@.take(i as int) =~= session_ids@);
        known
    }
}

/// One element more contains what was contained before, and that element.
proof fn lemma_contains_next<T>(s: Seq<T>, i: int, x: T)
    requires
        0 <= i < s.len(),
    ensures
        s.take(i + 1).contains(x) <==> s.take(i).contains(x) || s[i] == x,
{
    let longer = s.take(i + 1);
    if s.take(i).contains(x) {
        let j = choose|j: int| 0 <= j < i && s.take(i)[j] == x;
        assert(longer[j] == x);
    }
    if s[i] == x {
        assert(longer[i] == x);
    }
    if longer.contains(x) {
        let j = choose|j: int| 0 <= j <= i && longer[j] == x;
        if j < i {
            assert(s.take(i)[j] == x);
        }
    }
}

/// Returns the sessions of a set.
fn session_list(numbers: &BTreeSet<u64>) -> (sessions: Vec<SessionId>)
    ensures
        sessions@.no_duplicates(),
        forall|id: SessionId| #[trigger] sessions@.contains(id) <==> numbers@.contains(id.value),
{
    let values = crate::collections::members_of(numbers);
    let mut sessions: Vec<SessionId> = Vec::new();
    let mut i: usize = 0;
    while i < values.len()
        invariant
            i <= values@.len(),
            sessions@.len() == i,
            forall|j: int|
                0 <= j < i ==> (#[trigger] sessions@[j]) == (SessionId { value: values@[j] }),
        decreases values@.len() - i,
    {
        sessions.push(SessionId::from_value(values[i]));
        i += 1;
    }
    proof {
        assert forall|a: int, b: int| 0 <= a < b < sessions@.len() implies sessions@[a]
            != sessions@[b] by {
            assert(values@[a] != values@[b]);
        }
        assert forall|id: SessionId| #[trigger]
            sessions@.contains(id) <==> numbers@.contains(id.value) by {
            if sessions@.contains(id) {
                let j = choose|j: int| 0 <= j < sessions@.len() && sessions@[j] == id;
                assert(values@[j] == id.value);
                assert(values@.to_set().contains(id.value));
            }
            if numbers@.contains(id.value) {
                assert(values@.to_set().contains(id.value));
                let j = choose|j: int| 0 <= j < values@.len() && values@[j] == id.value;
                assert(sessions@[j] == id);
            }
        }
    }
    sessions
}

impl Registration {
    /// Returns the size that the client has stated.
    pub fn stated_size(&self) -> (size: usize)
        ensures
            size == self.size(),
    {
        match self {
            Registration::Segment { segment_size, .. } => *segment_size,
            Registration::DynamicSegment { segment_size, .. } => *segment_size,
            Registration::Channel { channel_size, .. } => *channel_size,
            Registration::MgmtSegment { mgmt_size, .. } => *mgmt_size,
        }
    }

    /// Returns the size that the policy is asked about.
    fn size_to_judge(&self) -> (size: usize)
        ensures
            size == self.judged_size(),
    {
        match self {
            Registration::Segment { segment_size, .. } => *segment_size,
            Registration::DynamicSegment { segment_size, .. } => *segment_size,
            Registration::Channel { channel_size, .. } => at_least_one(*channel_size),
            Registration::MgmtSegment { mgmt_size, .. } => at_least_one(*mgmt_size),
        }
    }
}

/// Returns the port that a request wants to attach, and to which service.
fn attachment(request: &IamRequest) -> (wanted: Option<(&ServiceId, PortType)>)
    ensures
        match wanted {
            Some((service_id, port_type)) => server_state::attachment_of(*request) == Some(
                (port_type, service_id@),
            ),
            None => server_state::attachment_of(*request) is None,
        },
{
    match request {
        IamRequest::AttachPublisher { service_id, .. } => Some((service_id, PortType::Publisher)),
        IamRequest::AttachSubscriber { service_id, .. } => Some(
            (service_id, PortType::Subscriber),
        ),
        IamRequest::AttachServer { service_id, .. } => Some((service_id, PortType::Server)),
        IamRequest::AttachClient { service_id, .. } => Some((service_id, PortType::Client)),
        _ => None,
    }
}

/// Returns the Quality of Service that the port of a request asks for.
fn qos(request: &IamRequest) -> (asked: QosRequest)
    ensures
        asked == server_state::qos_of(*request),
{
    match request {
        IamRequest::AttachPublisher { history_size, .. } => QosRequest {
            buffer_size: None,
            history_size: Some(*history_size),
        },
        IamRequest::AttachSubscriber { buffer_size, .. } => QosRequest {
            buffer_size: Some(*buffer_size),
            history_size: None,
        },
        _ => QosRequest { buffer_size: None, history_size: None },
    }
}

/// Checks what a port asks for against the bounds, and returns the denial if it is too much.
pub fn check_qos(asked: &QosRequest, bounds: &QosBounds) -> (denial: Option<IamResponse>)
    ensures
        match denial {
            Some(response) => if !server_state::buffer_within(*asked, *bounds) {
                response@ == server_state::qos_refused("buffer size"@)
            } else {
                &&& !server_state::history_within(*asked, *bounds)
                &&& response@ == server_state::qos_refused("history size"@)
            },
            None => server_state::buffer_within(*asked, *bounds) && server_state::history_within(
                *asked,
                *bounds,
            ),
        },
{
    let buffer_within = match asked.buffer_size {
        Some(size) => bounds.check_buffer_size(size),
        None => true,
    };
    let history_within = match asked.history_size {
        Some(size) => bounds.check_history(size),
        None => true,
    };
    if buffer_within && history_within {
        return None;
    }
    let mut message = "Requested ".to_owned();
    message.append(if !buffer_within { "buffer size" } else { "history size" });
    message.append(" exceeds the QoS bounds");
    Some(IamResponse::Denied { reason: DenialReason::IncompatibleQos, message })
}

/// Returns what came of duplicating the first of several handles.
fn first_copy<H>(copies: Vec<Option<H>>) -> (copy: Option<H>)
    ensures
        copy == server_state::copy_at(copies@, 0),
{
    let mut copies = copies;
    if copies.len() > 0 {
        copies.remove(0)
    } else {
        None
    }
}

/// Returns what a request wants to register, for which service and with how many handles.
fn registration(request: &IamRequest) -> (wanted: Option<(Registration, &ServiceId, usize)>)
    ensures
        match wanted {
            Some((registration, service_id, handle_count)) => server_state::registration_of(
                *request,
            ) == Some((registration, service_id@, handle_count)),
            None => server_state::registration_of(*request) is None,
        },
{
    match request {
        IamRequest::RegisterSegment { service_id, port_id, segment_size, handle_count } => Some(
            (
                Registration::Segment { port_id: *port_id, segment_size: *segment_size },
                service_id,
                *handle_count,
            ),
        ),
        IamRequest::RegisterDynamicSegment {
            service_id,
            port_id,
            segment_id,
            segment_size,
            handle_count,
        } => Some(
            (
                Registration::DynamicSegment {
                    port_id: *port_id,
                    segment_index: *segment_id,
                    segment_size: *segment_size,
                },
                service_id,
                *handle_count,
            ),
        ),
        IamRequest::RegisterChannel {
            service_id,
            sender_port_id,
            receiver_port_id,
            channel_size,
            handle_count,
        } => Some(
            (
                Registration::Channel {
                    sender_port_id: *sender_port_id,
                    receiver_port_id: *receiver_port_id,
                    channel_size: *channel_size,
                },
                service_id,
                *handle_count,
            ),
        ),
        IamRequest::RegisterMgmtSegment { service_id, port_id, mgmt_size, handle_count } => Some(
            (
                Registration::MgmtSegment { port_id: *port_id, mgmt_size: *mgmt_size },
                service_id,
                *handle_count,
            ),
        ),
        _ => None,
    }
}

/// Bounds that constrain nothing.
spec fn no_bounds() -> QosBounds {
    QosBounds { max_buffer_size: None, max_history: None }
}

/// Whether the policy may rule as given on a request. It is asked only about sessions whose
/// handshake is complete.
pub open spec fn ruled<P: IamPolicy, H>(
    policy: P,
    before: ServerState<H>,
    session_id: SessionId,
    request: IamRequest,
    verdict: Verdict,
    limits: ResourceLimits,
    bounds: QosBounds,
) -> bool {
    (before.sessions.contains_key(session_id.value)
        && before.sessions[session_id.value].handshake_complete) ==> server_state::may_rule(
        policy,
        before.sessions[session_id.value].session.credentials,
        request,
        verdict,
        limits,
        bounds,
    )
}

/// Whether the policy may rule as given on a port that a session attaches. It is asked only
/// about sessions whose handshake is complete.
pub open spec fn attach_ruled<P: IamPolicy, H>(
    policy: P,
    before: ServerState<H>,
    session_id: SessionId,
    service: Seq<char>,
    port_type: PortType,
    verdict: Verdict,
    limits: ResourceLimits,
    bounds: QosBounds,
) -> bool {
    let entry = before.sessions[session_id.value];
    (before.sessions.contains_key(session_id.value) && entry.handshake_complete) ==> {
        &&& policy.may_decide_attach(entry.session.credentials, service, port_type, verdict)
        &&& verdict is Allow ==> policy.may_limit(entry.session.credentials, limits)
            && policy.may_bound(entry.session.credentials, bounds)
    }
}

/// Whether the policy may rule as given on a segment that a session asks for or registers.
pub open spec fn segment_ruled<P: IamPolicy, H>(
    policy: P,
    before: ServerState<H>,
    session_id: SessionId,
    service: Seq<char>,
    size: usize,
    verdict: Verdict,
    limits: ResourceLimits,
) -> bool {
    let entry = before.sessions[session_id.value];
    (before.sessions.contains_key(session_id.value) && entry.handshake_complete) ==> {
        &&& policy.may_decide_add_segment(entry.session.credentials, service, size, verdict)
        &&& verdict is Allow ==> policy.may_limit(entry.session.credentials, limits)
    }
}

/// What came of a client that connected.
#[derive(Debug)]
pub struct Admission {
    /// The event for the audit log.
    pub audit: AuditRecord,
    /// The new session, or the response with which the connection is closed.
    pub result: Result<SessionId, IamResponse>,
}

impl<P: IamPolicy, H> IamServer<P, H> {
    /// Handles a new client connection.
    ///
    /// The policy may refuse the client; the response says so, and the connection is to be
    /// closed. Otherwise there is a new session, which waits for hello. `now` is the current
    /// time.
    pub fn handle_new_connection(
        &mut self,
        credentials: ProcessCredentials,
        counter: &mut SessionCounter,
        now: u64,
    ) -> (admission: Admission)
        requires
            old(counter).next() != 0,
        ensures
            old(self).rules().may_decide_connect(credentials, admission.audit.decision@),
            admission.audit@ == (AuditEntry {
                kind: AuditEventKind::Connect,
                credentials,
                verdict: admission.audit.decision@,
            }),
            match admission.audit.decision@ {
                Verdict::Deny { reason, message } => {
                    &&& admission.result matches Err(response)
                    &&& response@ == (Answer::Denied { reason, message })
                    &&& final(self)@ == old(self)@
                    &&& final(counter).next() == old(counter).next()
                },
                Verdict::Allow => {
                    &&& admission.result == Ok::<SessionId, IamResponse>(
                        SessionId { value: old(counter).next() },
                    )
                    &&& final(self)@ == old(self)@.with_new_session(
                        SessionState::fresh(
                            SessionId { value: old(counter).next() },
                            credentials,
                            now,
                        ),
                    )
                    &&& final(counter).next() == protocol::next_session_number(
                        old(counter).next(),
                    )
                },
            },
            final(self).same_setup(old(self)),
    {
        let decision = self.policy.authorize_connect(&credentials);
        let audit = AuditRecord {
            kind: AuditEventKind::Connect,
            credentials,
            decision: decision.clone(),
        };
        match refusal(decision) {
            Some(response) => Admission { audit, result: Err(response) },
            None => {
                let session = ClientSession::new(credentials, counter, now);
                let session_id = session.id();
                self.put_session(session_id, session, false);
                Admission { audit, result: Ok(session_id) }
            },
        }
    }

    /// Handles CreateService request.
    fn handle_create_service(
        &self,
        credentials: &ProcessCredentials,
        service_name: &ServiceName,
        messaging_pattern: MessagingPatternKind,
    ) -> (outcome: Outcome<H>)
        ensures
            exists|verdict: Verdict| #[trigger]
                self.rules().may_decide_create(
                    *credentials,
                    service_name@,
                    messaging_pattern,
                    verdict,
                ) && outcome.shows(
                    self@.create_service(
                        AuditEntry {
                            kind: AuditEventKind::Create { messaging_pattern },
                            credentials: *credentials,
                            verdict,
                        },
                    ),
                ),
    {
        let decision = self.policy.authorize_create(credentials, service_name, messaging_pattern);
        let ghost verdict = decision@;
        let audit = Some(
            AuditRecord {
                kind: AuditEventKind::Create { messaging_pattern },
                credentials: *credentials,
                decision: decision.clone(),
            },
        );
        let outcome = match refusal(decision) {
            Some(response) => Outcome::answer(audit, response),
            None => Outcome::answer(
                audit,
                IamResponse::protocol_error("Service creation not yet implemented"),
            ),
        };
        assert(self.rules().may_decide_create(
            *credentials,
            service_name@,
            messaging_pattern,
            verdict,
        ));
        outcome
    }

    /// Handles a request to attach a port.
    fn handle_attach(
        &mut self,
        session_id: SessionId,
        credentials: &ProcessCredentials,
        service_id: &ServiceId,
        port_type: PortType,
        asked: QosRequest,
        copies: Vec<Option<H>>,
    ) -> (outcome: Outcome<H>)
        requires
            old(self)@.sessions.contains_key(session_id.value),
            old(self)@.sessions[session_id.value].session.credentials == *credentials,
            old(self)@.port_counter < u128::MAX,
        ensures
            exists|verdict: Verdict, limits: ResourceLimits, bounds: QosBounds| #[trigger]
                attach_ruled(
                    old(self).rules(),
                    old(self)@,
                    session_id,
                    service_id@,
                    port_type,
                    verdict,
                    limits,
                    bounds,
                ) && outcome.shows(
                    old(self)@.attach(
                        session_id,
                        service_id@,
                        port_type,
                        asked,
                        verdict,
                        limits,
                        bounds,
                        copies@,
                    ),
                ) && final(self)@ == old(self)@.attach(
                    session_id,
                    service_id@,
                    port_type,
                    asked,
                    verdict,
                    limits,
                    bounds,
                    copies@,
                ).state,
            final(self).same_setup(old(self)),
    {
        let ghost before = self@;
        let decision = self.policy.authorize_attach(credentials, service_id, port_type);
        let ghost verdict = decision@;
        let copy = decision.clone();
        match refusal(decision) {
            Some(response) => {
                let ghost limits = ResourceLimits::spec_default();
                let ghost bounds = no_bounds();
                let outcome = Outcome::answer(
                    Some(
                        AuditRecord {
                            kind: AuditEventKind::Attach { port_type, port_id: 0 },
                            credentials: *credentials,
                            decision: copy,
                        },
                    ),
                    response,
                );
                assert(attach_ruled(
                    self.rules(),
                    before,
                    session_id,
                    service_id@,
                    port_type,
                    verdict,
                    limits,
                    bounds,
                ));
                outcome
            },
            None => {
                let limits = self.policy.get_limits(credentials);
                let bounds = self.policy.get_qos_bounds(credentials);
                let outcome = self.attach_within(
                    session_id,
                    service_id,
                    port_type,
                    asked,
                    &limits,
                    &bounds,
                    copies,
                );
                assert(attach_ruled(
                    self.rules(),
                    before,
                    session_id,
                    service_id@,
                    port_type,
                    verdict,
                    limits,
                    bounds,
                ));
                outcome
            },
        }
    }

    /// Handles AddSegment request: orders the segment.
    fn handle_add_segment(
        &mut self,
        session_id: SessionId,
        credentials: &ProcessCredentials,
        service_id: &ServiceId,
        port_id: u128,
        requested_size: usize,
        bucket_size: usize,
        bucket_align: usize,
    ) -> (outcome: Outcome<H>)
        requires
            old(self)@.sessions.contains_key(session_id.value),
            old(self)@.sessions[session_id.value].session.credentials == *credentials,
        ensures
            exists|verdict: Verdict, limits: ResourceLimits| #[trigger]
                segment_ruled(
                    old(self).rules(),
                    old(self)@,
                    session_id,
                    service_id@,
                    requested_size,
                    verdict,
                    limits,
                ) && outcome.shows(
                    old(self)@.add_segment(
                        session_id,
                        port_id,
                        requested_size,
                        bucket_size,
                        bucket_align,
                        verdict,
                        limits,
                    ),
                ) && final(self)@ == old(self)@.add_segment(
                    session_id,
                    port_id,
                    requested_size,
                    bucket_size,
                    bucket_align,
                    verdict,
                    limits,
                ).state,
            final(self).same_setup(old(self)),
    {
        let ghost before = self@;
        let decision = self.policy.authorize_add_segment(credentials, service_id, requested_size);
        let ghost verdict = decision@;
        let copy = decision.clone();
        match refusal(decision) {
            Some(response) => {
                let ghost limits = ResourceLimits::spec_default();
                let outcome = Outcome::answer(
                    Some(
                        AuditRecord {
                            kind: AuditEventKind::AddSegment { size: requested_size },
                            credentials: *credentials,
                            decision: copy,
                        },
                    ),
                    response,
                );
                assert(segment_ruled(
                    self.rules(),
                    before,
                    session_id,
                    service_id@,
                    requested_size,
                    verdict,
                    limits,
                ));
                outcome
            },
            None => {
                let limits = self.policy.get_limits(credentials);
                let outcome = self.add_segment_within(
                    session_id,
                    port_id,
                    requested_size,
                    bucket_size,
                    bucket_align,
                    &limits,
                );
                assert(segment_ruled(
                    self.rules(),
                    before,
                    session_id,
                    service_id@,
                    requested_size,
                    verdict,
                    limits,
                ));
                outcome
            },
        }
    }

    /// Handles a registration up to the point where its handles are to be received.
    fn handle_register(
        &self,
        session_id: SessionId,
        service_id: &ServiceId,
        registration: Registration,
        handle_count: usize,
    ) -> (outcome: Outcome<H>)
        ensures
            exists|verdict: Verdict, limits: ResourceLimits| #[trigger]
                segment_ruled(
                    self.rules(),
                    self@,
                    session_id,
                    service_id@,
                    registration.judged_size(),
                    verdict,
                    limits,
                ) && outcome.shows(
                    self@.register(session_id, registration, handle_count, verdict, limits),
                ),
    {
        let ghost limits = ResourceLimits::spec_default();
        let entry = match self.sessions.get(&session_id.value) {
            Some(entry) => entry,
            None => {
                let outcome = Outcome::failure(None, IamServerError::SessionNotFound);
                assert(segment_ruled(
                    self.rules(),
                    self@,
                    session_id,
                    service_id@,
                    registration.judged_size(),
                    Verdict::Allow,
                    limits,
                ));
                return outcome;
            },
        };
        if !entry.handshake_complete {
            let outcome = Outcome::answer(
                None,
                IamResponse::protocol_error("Handshake not complete"),
            );
            assert(segment_ruled(
                self.rules(),
                self@,
                session_id,
                service_id@,
                registration.judged_size(),
                Verdict::Allow,
                limits,
            ));
            return outcome;
        }
        let credentials = *entry.session.credentials();
        let decision = self.policy.authorize_add_segment(
            &credentials,
            service_id,
            registration.size_to_judge(),
        );
        let ghost verdict = decision@;
        let copy = decision.clone();
        match refusal(decision) {
            Some(response) => {
                let outcome = Outcome::answer(
                    Some(
                        AuditRecord {
                            kind: AuditEventKind::AddSegment { size: registration.stated_size() },
                            credentials,
                            decision: copy,
                        },
                    ),
                    response,
                );
                assert(segment_ruled(
                    self.rules(),
                    self@,
                    session_id,
                    service_id@,
                    registration.judged_size(),
                    verdict,
                    limits,
                ));
                outcome
            },
            None => {
                let limits = self.policy.get_limits(&credentials);
                let outcome = self.register_within(
                    session_id,
                    registration,
                    handle_count,
                    &limits,
                );
                assert(segment_ruled(
                    self.rules(),
                    self@,
                    session_id,
                    service_id@,
                    registration.judged_size(),
                    verdict,
                    limits,
                ));
                outcome
            },
        }
    }

    /// Handles a single request and returns what is to be done.
    ///
    /// `copies` is what came of duplicating the handles that the request wants, in the order in
    /// which [`IamServer::wanted_handles`] gives them. Registrations are refused here, because
    /// handles have to be received for them.
    pub fn handle_request(
        &mut self,
        session_id: SessionId,
        request: IamRequest,
        copies: Vec<Option<H>>,
    ) -> (outcome: Outcome<H>)
        requires
            old(self)@.ready_for(session_id, request),
        ensures
            exists|verdict: Verdict, limits: ResourceLimits, bounds: QosBounds|
                {
                    let effect = #[trigger] old(self)@.request(
                        session_id,
                        request,
                        verdict,
                        limits,
                        bounds,
                        copies@,
                    );
                    &&& ruled(
                        old(self).rules(),
                        old(self)@,
                        session_id,
                        request,
                        verdict,
                        limits,
                        bounds,
                    ) || server_state::registration_of(request) is Some
                    &&& outcome.shows(effect)
                    &&& final(self)@ == effect.state
                },
            final(self).same_setup(old(self)),
    {
        let ghost before = self@;
        let ghost limits = ResourceLimits::spec_default();
        let ghost bounds = no_bounds();
        let ghost allow = Verdict::Allow;
        let (credentials, handshake_complete): (ProcessCredentials, bool) =
            match self.sessions.get(&session_id.value) {
            Some(entry) => (*entry.session.credentials(), entry.handshake_complete),
            None => {
                let outcome = Outcome::failure(None, IamServerError::SessionNotFound);
                assert(outcome.shows(
                    before.request(session_id, request, allow, limits, bounds, copies@),
                ));
                return outcome;
            },
        };
        if let IamRequest::Hello { protocol_version, .. } = request {
            let outcome = self.handle_hello(session_id, protocol_version);
            assert(outcome.shows(before.request(session_id, request, allow, limits, bounds, copies@)));
            return outcome;
        }
        if let Some((wanted, _, _)) = registration(&request) {
            let message = match wanted {
                Registration::Segment { .. } => "RegisterSegment must be handled in dispatch loop",
                Registration::DynamicSegment { .. } => {
                    "RegisterDynamicSegment must be handled in dispatch loop"
                },
                Registration::Channel { .. } => "RegisterChannel must be handled in dispatch loop",
                Registration::MgmtSegment { .. } => {
                    "RegisterMgmtSegment must be handled in dispatch loop"
                },
            };
            let outcome = Outcome::answer(None, IamResponse::protocol_error(message));
            assert(outcome.shows(before.request(session_id, request, allow, limits, bounds, copies@)));
            return outcome;
        }
        if !handshake_complete {
            let outcome = Outcome::answer(
                None,
                IamResponse::protocol_error("Handshake not complete"),
            );
            assert(outcome.shows(before.request(session_id, request, allow, limits, bounds, copies@)));
            return outcome;
        }
        self.handle_admitted_request(session_id, &credentials, request, copies)
    }

    /// Handles a request of a session whose handshake is complete.
    fn handle_admitted_request(
        &mut self,
        session_id: SessionId,
        credentials: &ProcessCredentials,
        request: IamRequest,
        copies: Vec<Option<H>>,
    ) -> (outcome: Outcome<H>)
        requires
            old(self)@.ready_for(session_id, request),
            old(self)@.sessions.contains_key(session_id.value),
            old(self)@.sessions[session_id.value].handshake_complete,
            old(self)@.sessions[session_id.value].session.credentials == *credentials,
            !(request is Hello),
            server_state::registration_of(request) is None,
        ensures
            exists|verdict: Verdict, limits: ResourceLimits, bounds: QosBounds|
                {
                    let effect = #[trigger] old(self)@.request(
                        session_id,
                        request,
                        verdict,
                        limits,
                        bounds,
                        copies@,
                    );
                    &&& ruled(
                        old(self).rules(),
                        old(self)@,
                        session_id,
                        request,
                        verdict,
                        limits,
                        bounds,
                    )
                    &&& outcome.shows(effect)
                    &&& final(self)@ == effect.state
                },
            final(self).same_setup(old(self)),
    {
        let ghost before = self@;
        let ghost policy = self.rules();
        let ghost any = ResourceLimits::spec_default();
        let ghost asked = request;
        let ghost none = no_bounds();
        let ghost given = copies@;
        if let Some((service_id, port_type)) = attachment(&request) {
            let outcome = self.handle_attach(
                session_id,
                credentials,
                service_id,
                port_type,
                qos(&request),
                copies,
            );
            proof {
                let (verdict, limits, bounds) = choose|
                    verdict: Verdict,
                    limits: ResourceLimits,
                    bounds: QosBounds,
                | #[trigger]
                    attach_ruled(
                        policy,
                        before,
                        session_id,
                        service_id@,
                        port_type,
                        verdict,
                        limits,
                        bounds,
                    ) && outcome.shows(
                        before.attach(
                            session_id,
                            service_id@,
                            port_type,
                            server_state::qos_of(asked),
                            verdict,
                            limits,
                            bounds,
                            given,
                        ),
                    ) && self@ == before.attach(
                        session_id,
                        service_id@,
                        port_type,
                        server_state::qos_of(asked),
                        verdict,
                        limits,
                        bounds,
                        given,
                    ).state;
                assert(outcome.shows(
                    before.request(session_id, asked, verdict, limits, bounds, given),
                ));
            }
            return outcome;
        }
        match request {
            IamRequest::CreateService { service_name, messaging_pattern } => {
                let outcome = self.handle_create_service(
                    credentials,
                    &service_name,
                    messaging_pattern,
                );
                proof {
                    let verdict = choose|verdict: Verdict| #[trigger]
                        policy.may_decide_create(
                            *credentials,
                            service_name@,
                            messaging_pattern,
                            verdict,
                        ) && outcome.shows(
                            before.create_service(
                                AuditEntry {
                                    kind: AuditEventKind::Create { messaging_pattern },
                                    credentials: *credentials,
                                    verdict,
                                },
                            ),
                        );
                    assert(outcome.shows(before.request(session_id, asked, verdict, any, none, given)));
                }
                outcome
            },
            IamRequest::AddSegment {
                service_id,
                port_id,
                requested_size,
                bucket_size,
                bucket_align,
            } => {
                let outcome = self.handle_add_segment(
                    session_id,
                    credentials,
                    &service_id,
                    port_id,
                    requested_size,
                    bucket_size,
                    bucket_align,
                );
                proof {
                    let (verdict, limits) = choose|verdict: Verdict, limits: ResourceLimits|
                        #[trigger]
                        segment_ruled(
                            policy,
                            before,
                            session_id,
                            service_id@,
                            requested_size,
                            verdict,
                            limits,
                        ) && outcome.shows(
                            before.add_segment(
                                session_id,
                                port_id,
                                requested_size,
                                bucket_size,
                                bucket_align,
                                verdict,
                                limits,
                            ),
                        ) && self@ == before.add_segment(
                            session_id,
                            port_id,
                            requested_size,
                            bucket_size,
                            bucket_align,
                            verdict,
                            limits,
                        ).state;
                    assert(outcome.shows(
                        before.request(session_id, asked, verdict, limits, none, given),
                    ));
                }
                outcome
            },
            IamRequest::Detach { port_id, .. } => {
                let outcome = self.handle_detach(session_id, port_id);
                assert(outcome.shows(
                    before.request(session_id, asked, Verdict::Allow, any, none, given),
                ));
                outcome
            },
            IamRequest::AckSegmentRetirement { segment_id, .. } => {
                let outcome = self.handle_ack_retirement(session_id, segment_id);
                assert(outcome.shows(
                    before.request(session_id, asked, Verdict::Allow, any, none, given),
                ));
                outcome
            },
            IamRequest::RequestSegmentHandle { sender_port_id, .. } => {
                let outcome = self.handle_request_segment_handle(
                    session_id,
                    sender_port_id,
                    first_copy(copies),
                );
                assert(outcome.shows(
                    before.request(session_id, asked, Verdict::Allow, any, none, given),
                ));
                outcome
            },
            IamRequest::RequestDynamicSegmentHandle { sender_port_id, segment_id, .. } => {
                let outcome = self.handle_request_dynamic_segment_handle(
                    session_id,
                    sender_port_id,
                    segment_id,
                    first_copy(copies),
                );
                assert(outcome.shows(
                    before.request(session_id, asked, Verdict::Allow, any, none, given),
                ));
                outcome
            },
            IamRequest::RequestChannelHandle { sender_port_id, receiver_port_id, .. } => {
                let outcome = self.handle_request_channel_handle(
                    session_id,
                    sender_port_id,
                    receiver_port_id,
                    first_copy(copies),
                );
                assert(outcome.shows(
                    before.request(session_id, asked, Verdict::Allow, any, none, given),
                ));
                outcome
            },
            IamRequest::RequestMgmtSegmentHandle { port_id, .. } => {
                let outcome = self.handle_request_mgmt_segment_handle(
                    session_id,
                    port_id,
                    first_copy(copies),
                );
                assert(outcome.shows(
                    before.request(session_id, asked, Verdict::Allow, any, none, given),
                ));
                outcome
            },
            _ => {
                assert(false);
                Outcome::failure(None, IamServerError::InternalError)
            },
        }
    }
}

impl<P: IamPolicy, H> IamServer<P, H> {
    /// Handles a request that a session has sent, where handles can be received from it.
    ///
    /// A registration that is in order comes to [`Reply::ReceiveHandles`]; every other request
    /// to what [`IamServer::handle_request`] makes of it.
    pub fn dispatch_request(
        &mut self,
        session_id: SessionId,
        request: IamRequest,
        copies: Vec<Option<H>>,
    ) -> (outcome: Outcome<H>)
        requires
            old(self)@.ready_for(session_id, request),
        ensures
            exists|verdict: Verdict, limits: ResourceLimits, bounds: QosBounds|
                {
                    let effect = #[trigger] old(self)@.dispatched_request(
                        session_id,
                        request,
                        verdict,
                        limits,
                        bounds,
                        copies@,
                    );
                    &&& ruled(
                        old(self).rules(),
                        old(self)@,
                        session_id,
                        request,
                        verdict,
                        limits,
                        bounds,
                    )
                    &&& outcome.shows(effect)
                    &&& final(self)@ == effect.state
                },
            final(self).same_setup(old(self)),
    {
        let ghost before = self@;
        let ghost policy = self.rules();
        let ghost asked = request;
        let ghost given = copies@;
        if let Some((wanted, service_id, handle_count)) = registration(&request) {
            let outcome = self.handle_register(session_id, service_id, wanted, handle_count);
            proof {
                let (verdict, limits) = choose|verdict: Verdict, limits: ResourceLimits| #[trigger]
                    segment_ruled(
                        policy,
                        before,
                        session_id,
                        service_id@,
                        wanted.judged_size(),
                        verdict,
                        limits,
                    ) && outcome.shows(
                        before.register(session_id, wanted, handle_count, verdict, limits),
                    );
                assert(outcome.shows(
                    before.dispatched_request(
                        session_id,
                        asked,
                        verdict,
                        limits,
                        no_bounds(),
                        given,
                    ),
                ));
            }
            return outcome;
        }
        let outcome = self.handle_request(session_id, request, copies);
        proof {
            let (verdict, limits, bounds) = choose|
                verdict: Verdict,
                limits: ResourceLimits,
                bounds: QosBounds,
            |
                {
                    let effect = #[trigger] before.request(
                        session_id,
                        asked,
                        verdict,
                        limits,
                        bounds,
                        given,
                    );
                    &&& ruled(policy, before, session_id, asked, verdict, limits, bounds)
                        || server_state::registration_of(asked) is Some
                    &&& outcome.shows(effect)
                    &&& self@ == effect.state
                };
            assert(outcome.shows(
                before.dispatched_request(session_id, asked, verdict, limits, bounds, given),
            ));
        }
        outcome
    }
}

} // verus!
