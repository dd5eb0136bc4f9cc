//! Audit events: what was asked, by whom, and what the policy said.

use vstd::prelude::*;
use crate::policy::{PolicyDecision, Verdict};
use crate::protocol::{DenialReason, MessagingPatternKind, PortType};
use crate::text::append_decimal;
use crate::types::ProcessCredentials;

verus! {

/// The kind of auditable event.
#[derive(Debug)]
pub enum AuditEventKind {
    /// A client connected to the server.
    Connect,
    /// A service creation was requested.
    Create {
        /// The messaging pattern of the service.
        messaging_pattern: MessagingPatternKind,
    },
    /// A port attachment was requested.
    Attach {
        /// The type of port being attached.
        port_type: PortType,
        /// The assigned port ID (0 if denied).
        port_id: u128,
    },
    /// A segment addition was requested.
    AddSegment {
        /// The requested segment size.
        size: usize,
    },
    /// A request was denied.
    Deny {
        /// The reason for denial.
        reason: String,
    },
    /// A port was detached.
    Detach {
        /// The port ID being detached.
        port_id: u128,
    },
}

impl Clone for AuditEventKind {
    fn clone(&self) -> (copy: Self)
        ensures
            copy == *self,
    {
        match self {
            AuditEventKind::Connect => AuditEventKind::Connect,
            AuditEventKind::Create { messaging_pattern } => AuditEventKind::Create {
                messaging_pattern: *messaging_pattern,
            },
            AuditEventKind::Attach { port_type, port_id } => AuditEventKind::Attach {
                port_type: *port_type,
                port_id: *port_id,
            },
            AuditEventKind::AddSegment { size } => AuditEventKind::AddSegment { size: *size },
            AuditEventKind::Deny { reason } => AuditEventKind::Deny { reason: reason.clone() },
            AuditEventKind::Detach { port_id } => AuditEventKind::Detach { port_id: *port_id },
        }
    }
}

/// The name of a messaging pattern.
pub open spec fn pattern_name(pattern: MessagingPatternKind) -> Seq<char> {
    match pattern {
        MessagingPatternKind::PublishSubscribe => "PublishSubscribe"@,
        MessagingPatternKind::RequestResponse => "RequestResponse"@,
        MessagingPatternKind::Event => "Event"@,
    }
}

/// The name of a port type.
pub open spec fn port_type_name(port_type: PortType) -> Seq<char> {
    match port_type {
        PortType::Publisher => "Publisher"@,
        PortType::Subscriber => "Subscriber"@,
        PortType::Server => "Server"@,
        PortType::Client => "Client"@,
    }
}

/// The name of a reason for denial.
pub open spec fn reason_name(reason: DenialReason) -> Seq<char> {
    match reason {
        DenialReason::Unauthorized => "Unauthorized"@,
        DenialReason::ServiceNotFound => "ServiceNotFound"@,
        DenialReason::ServiceAlreadyExists => "ServiceAlreadyExists"@,
        DenialReason::ResourceLimitExceeded => "ResourceLimitExceeded"@,
        DenialReason::IncompatibleQos => "IncompatibleQos"@,
        DenialReason::PolicyViolation => "PolicyViolation"@,
        DenialReason::InternalError => "InternalError"@,
        DenialReason::VersionMismatch => "VersionMismatch"@,
        DenialReason::SessionNotFound => "SessionNotFound"@,
        DenialReason::InvalidRequest => "InvalidRequest"@,
    }
}

/// The text that stands for an event in the log.
pub open spec fn kind_text(kind: AuditEventKind) -> Seq<char> {
    match kind {
        AuditEventKind::Connect => "connect"@,
        AuditEventKind::Create { messaging_pattern } => "create:"@ + pattern_name(
            messaging_pattern,
        ),
        AuditEventKind::Attach { port_type, port_id } => "attach:"@ + port_type_name(port_type)
            + ":"@ + crate::text::decimal(port_id as nat),
        AuditEventKind::AddSegment { size } => "add_segment:"@ + crate::text::decimal(size as nat),
        AuditEventKind::Deny { reason } => "deny:"@ + reason@,
        AuditEventKind::Detach { port_id } => "detach:"@ + crate::text::decimal(port_id as nat),
    }
}

/// Returns the name of a messaging pattern.
pub fn messaging_pattern_name(pattern: MessagingPatternKind) -> (name: &'static str)
    ensures
        name@ == pattern_name(pattern),
{
    match pattern {
        MessagingPatternKind::PublishSubscribe => "PublishSubscribe",
        MessagingPatternKind::RequestResponse => "RequestResponse",
        MessagingPatternKind::Event => "Event",
    }
}

/// Returns the name of a port type.
pub fn name_of_port_type(port_type: PortType) -> (name: &'static str)
    ensures
        name@ == port_type_name(port_type),
{
    match port_type {
        PortType::Publisher => "Publisher",
        PortType::Subscriber => "Subscriber",
        PortType::Server => "Server",
        PortType::Client => "Client",
    }
}

/// Returns the name of a reason for denial.
pub fn denial_reason_name(reason: DenialReason) -> (name: &'static str)
    ensures
        name@ == reason_name(reason),
{
    match reason {
        DenialReason::Unauthorized => "Unauthorized",
        DenialReason::ServiceNotFound => "ServiceNotFound",
        DenialReason::ServiceAlreadyExists => "ServiceAlreadyExists",
        DenialReason::ResourceLimitExceeded => "ResourceLimitExceeded",
        DenialReason::IncompatibleQos => "IncompatibleQos",
        DenialReason::PolicyViolation => "PolicyViolation",
        DenialReason::InternalError => "InternalError",
        DenialReason::VersionMismatch => "VersionMismatch",
        DenialReason::SessionNotFound => "SessionNotFound",
        DenialReason::InvalidRequest => "InvalidRequest",
    }
}

impl AuditEventKind {
    /// Returns the text that stands for the event in the log.
    pub fn to_text(&self) -> (text: String)
        ensures
            text@ == kind_text(*self),
    {
        match self {
            AuditEventKind::Connect => "connect".to_owned(),
            AuditEventKind::Create { messaging_pattern } => {
                let mut text = "create:".to_owned();
                text.append(messaging_pattern_name(*messaging_pattern));
                text
            },
            AuditEventKind::Attach { port_type, port_id } => {
                let mut text = "attach:".to_owned();
                text.append(name_of_port_type(*port_type));
                text.append(":");
                append_decimal(&mut text, *port_id);
                text
            },
            AuditEventKind::AddSegment { size } => {
                let mut text = "add_segment:".to_owned();
                append_decimal(&mut text, *size as u128);
                text
            },
            AuditEventKind::Deny { reason } => {
                let mut text = "deny:".to_owned();
                text.append(reason.as_str());
                text
            },
            AuditEventKind::Detach { port_id } => {
                let mut text = "detach:".to_owned();
                append_decimal(&mut text, *port_id);
                text
            },
        }
    }
}

/// A point in time, counted from the epoch.
#[derive(Debug, Clone, Copy, PartialEq, Eq, Structural)]
pub struct Timestamp {
    /// Whole seconds since the epoch.
    pub secs: u64,
    /// Nanoseconds within the second.
    pub nanos: u32,
}

/// A single auditable event.
#[derive(Debug)]
pub struct AuditEvent {
    /// When the event occurred; `None` for a clock that stands before the epoch.
    pub timestamp: Option<Timestamp>,
    /// What kind of event occurred.
    pub kind: AuditEventKind,
    /// Credentials of the process that triggered the event.
    pub credentials: ProcessCredentials,
    /// The service name associated with this event.
    pub service_name: String,
    /// The policy decision for this event.
    pub decision: PolicyDecision,
}

impl AuditEvent {
    /// Creates a new audit event that occurred at the given time.
    pub fn new(
        timestamp: Option<Timestamp>,
        kind: AuditEventKind,
        credentials: ProcessCredentials,
        service_name: String,
        decision: PolicyDecision,
    ) -> (event: AuditEvent)
        ensures
            event == (AuditEvent { timestamp, kind, credentials, service_name, decision }),
    {
        AuditEvent { timestamp, kind, credentials, service_name, decision }
    }
}

impl Clone for AuditEvent {
    fn clone(&self) -> (copy: Self)
        ensures
            copy == *self,
    {
        AuditEvent {
            timestamp: self.timestamp,
            kind: self.kind.clone(),
            credentials: self.credentials,
            service_name: self.service_name.clone(),
            decision: self.decision.clone(),
        }
    }
}

/// Flat form of an audit event for a line of the log.
#[derive(Debug)]
pub struct SerializableAuditEvent {
    /// Whole seconds since the epoch.
    pub timestamp_secs: u64,
    /// Nanoseconds within the second.
    pub timestamp_nanos: u32,
    /// The text that stands for the event.
    pub kind: String,
    /// The user that triggered the event.
    pub uid: u32,
    /// The group that triggered the event.
    pub gid: u32,
    /// The process that triggered the event.
    pub pid: u32,
    /// The service name associated with the event.
    pub service_name: String,
    /// `allow` or `deny`.
    pub decision: String,
    /// The name of the reason for denial; empty if allowed.
    pub reason: String,
    /// The message that explains the denial; empty if allowed.
    pub message: String,
}

impl SerializableAuditEvent {
    /// Flattens an audit event. A time before the epoch becomes the epoch.
    pub fn from(event: &AuditEvent) -> (flat: SerializableAuditEvent)
        ensures
            flat.timestamp_secs == (match event.timestamp {
                Some(time) => time.secs,
                None => 0,
            }),
            flat.timestamp_nanos == (match event.timestamp {
                Some(time) => time.nanos,
                None => 0,
            }),
            flat.kind@ == kind_text(event.kind),
            flat.uid == event.credentials.uid,
            flat.gid == event.credentials.gid,
            flat.pid == event.credentials.pid,
            flat.service_name@ == event.service_name@,
            flat.decision@ == (match event.decision@ {
                Verdict::Allow => "allow"@,
                Verdict::Deny { .. } => "deny"@,
            }),
            flat.reason@ == (match event.decision@ {
                Verdict::Allow => Seq::<char>::empty(),
                Verdict::Deny { reason, .. } => reason_name(reason),
            }),
            flat.message@ == (match event.decision@ {
                Verdict::Allow => Seq::<char>::empty(),
                Verdict::Deny { message, .. } => message,
            }),
    {
        let (secs, nanos): (u64, u32) = match event.timestamp {
            Some(time) => (time.secs, time.nanos),
            None => (0, 0),
        };
        let (decision, reason, message) = match &event.decision {
            PolicyDecision::Allow => ("allow".to_owned(), String::new(), String::new()),
            PolicyDecision::Deny { reason, message } => (
                "deny".to_owned(),
                denial_reason_name(*reason).to_owned(),
                message.clone(),
            ),
        };
        SerializableAuditEvent {
            timestamp_secs: secs,
            timestamp_nanos: nanos,
            kind: event.kind.to_text(),
            uid: event.credentials.uid,
            gid: event.credentials.gid,
            pid: event.credentials.pid,
            service_name: event.service_name.clone(),
            decision,
            reason,
            message,
        }
    }
}

/// An event is written as what it is and, behind a colon, what it is about: the pattern of a service,
/// the type and number of a port, the size of a segment, the words of a denial.
pub proof fn law_events_are_written(
    messaging_pattern: MessagingPatternKind,
    port_type: PortType,
    port_id: u128,
    size: usize,
    reason: String,
)
    ensures
        kind_text(AuditEventKind::Connect) == "connect"@,
        kind_text(AuditEventKind::Create { messaging_pattern }) == "create:"@ + (
        match messaging_pattern {
            MessagingPatternKind::PublishSubscribe => "PublishSubscribe"@,
            MessagingPatternKind::RequestResponse => "RequestResponse"@,
            MessagingPatternKind::Event => "Event"@,
        }),
        kind_text(AuditEventKind::Attach { port_type, port_id }) == "attach:"@ + (match port_type {
            PortType::Publisher => "Publisher"@,
            PortType::Subscriber => "Subscriber"@,
            PortType::Server => "Server"@,
            PortType::Client => "Client"@,
        }) + ":"@ + crate::text::decimal(port_id as nat),
        kind_text(AuditEventKind::AddSegment { size }) == "add_segment:"@ + crate::text::decimal(
            size as nat,
        ),
        kind_text(AuditEventKind::Deny { reason }) == "deny:"@ + reason@,
        kind_text(AuditEventKind::Detach { port_id }) == "detach:"@ + crate::text::decimal(
            port_id as nat,
        ),
{
}

/// Each reason for denial is written by its own name.
pub proof fn law_reasons_are_written(reason: DenialReason)
    ensures
        match reason {
            DenialReason::Unauthorized => reason_name(reason) == "Unauthorized"@,
            DenialReason::ServiceNotFound => reason_name(reason) == "ServiceNotFound"@,
            DenialReason::ServiceAlreadyExists => reason_name(reason) == "ServiceAlreadyExists"@,
            DenialReason::ResourceLimitExceeded => reason_name(reason) == "ResourceLimitExceeded"@,
            DenialReason::IncompatibleQos => reason_name(reason) == "IncompatibleQos"@,
            DenialReason::PolicyViolation => reason_name(reason) == "PolicyViolation"@,
            DenialReason::InternalError => reason_name(reason) == "InternalError"@,
            DenialReason::VersionMismatch => reason_name(reason) == "VersionMismatch"@,
            DenialReason::SessionNotFound => reason_name(reason) == "SessionNotFound"@,
            DenialReason::InvalidRequest => reason_name(reason) == "InvalidRequest"@,
        },
{
}

} // verus!
