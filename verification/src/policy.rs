//! Policies: who may do what, and how much of it.

use vstd::prelude::*;
use crate::protocol::{DenialReason, MessagingPatternKind, PortType};
use crate::types::{ProcessCredentials, ServiceId, ServiceName};

verus! {

/// What a policy has decided, with the message as characters.
pub enum Verdict {
    /// The request is allowed.
    Allow,
    /// The request is denied.
    Deny {
        /// The reason for denial.
        reason: DenialReason,
        /// The message that explains the denial.
        message: Seq<char>,
    },
}

/// Result of policy evaluation.
#[derive(Debug, PartialEq, Eq)]
pub enum PolicyDecision {
    /// Request is allowed.
    Allow,
    /// Request is denied with reason.
    Deny {
        /// The reason for denial.
        reason: DenialReason,
        /// A human-readable message explaining the denial.
        message: String,
    },
}

impl View for PolicyDecision {
    type V = Verdict;

    open spec fn view(&self) -> Verdict {
        match self {
            PolicyDecision::Allow => Verdict::Allow,
            PolicyDecision::Deny { reason, message } => Verdict::Deny {
                reason: *reason,
                message: message@,
            },
        }
    }
}

impl Clone for PolicyDecision {
    fn clone(&self) -> (copy: Self)
        ensures
            copy == *self,
    {
        match self {
            PolicyDecision::Allow => PolicyDecision::Allow,
            PolicyDecision::Deny { reason, message } => PolicyDecision::Deny {
                reason: *reason,
                message: message.clone(),
            },
        }
    }
}

impl PolicyDecision {
    /// Creates an allow decision.
    #[must_use]
    pub fn allow() -> (decision: PolicyDecision)
        ensures
            decision@ == Verdict::Allow,
    {
        PolicyDecision::Allow
    }

    /// Creates a deny decision with the specified reason and message.
    #[must_use]
    pub fn deny(reason: DenialReason, message: &str) -> (decision: PolicyDecision)
        ensures
            decision@ == (Verdict::Deny { reason, message: message@ }),
    {
        PolicyDecision::Deny { reason, message: message.to_owned() }
    }

    /// Returns `true` if the decision is [`PolicyDecision::Allow`].
    #[must_use]
    pub fn is_allowed(&self) -> (allowed: bool)
        ensures
            allowed == (self@ is Allow),
    {
        match self {
            PolicyDecision::Allow => true,
            PolicyDecision::Deny { .. } => false,
        }
    }

    /// Returns `true` if the decision is [`PolicyDecision::Deny`].
    #[must_use]
    pub fn is_denied(&self) -> (denied: bool)
        ensures
            denied == (self@ is Deny),
    {
        match self {
            PolicyDecision::Allow => false,
            PolicyDecision::Deny { .. } => true,
        }
    }
}

/// Resource limits for a principal.
#[derive(Debug, Clone, Copy, PartialEq, Eq, Hash, Structural)]
pub struct ResourceLimits {
    /// Maximum number of publishers a principal can create.
    pub max_publishers: usize,
    /// Maximum number of subscribers a principal can create.
    pub max_subscribers: usize,
    /// Maximum number of servers a principal can create.
    pub max_servers: usize,
    /// Maximum number of clients a principal can create.
    pub max_clients: usize,
    /// Maximum number of segments a principal can allocate; the server counts them.
    pub max_segments: usize,
    /// Maximum size of a single segment in bytes (inclusive).
    pub max_segment_size: usize,
}

/// Maximum reasonable segment size (1 GB) for validation purposes.
pub const MAX_REASONABLE_SEGMENT_SIZE: usize = 1024 * 1024 * 1024;

impl ResourceLimits {
    /// The limits that apply where none are set.
    pub open spec fn spec_default() -> ResourceLimits {
        ResourceLimits {
            max_publishers: 16,
            max_subscribers: 256,
            max_servers: 16,
            max_clients: 256,
            max_segments: 64,
            max_segment_size: 67_108_864,
        }
    }

    /// The limit on ports of a type.
    pub open spec fn port_limit(self, port_type: PortType) -> usize {
        match port_type {
            PortType::Publisher => self.max_publishers,
            PortType::Subscriber => self.max_subscribers,
            PortType::Server => self.max_servers,
            PortType::Client => self.max_clients,
        }
    }

    /// Creates new limits with the specified values.
    pub fn new(
        max_publishers: usize,
        max_subscribers: usize,
        max_servers: usize,
        max_clients: usize,
        max_segments: usize,
        max_segment_size: usize,
    ) -> (limits: ResourceLimits)
        ensures
            limits == (ResourceLimits {
                max_publishers,
                max_subscribers,
                max_servers,
                max_clients,
                max_segments,
                max_segment_size,
            }),
    {
        ResourceLimits {
            max_publishers,
            max_subscribers,
            max_servers,
            max_clients,
            max_segments,
            max_segment_size,
        }
    }

    /// Checks if the resource limits are valid.
    ///
    /// The largest segment must not be empty, and not larger than
    /// [`MAX_REASONABLE_SEGMENT_SIZE`]. The other limits may be anything.
    pub fn is_valid(&self) -> (valid: bool)
        ensures
            valid == (0 < self.max_segment_size <= MAX_REASONABLE_SEGMENT_SIZE),
    {
        self.max_segment_size > 0 && self.max_segment_size <= MAX_REASONABLE_SEGMENT_SIZE
    }
}

impl Default for ResourceLimits {
    fn default() -> (limits: Self)
        ensures
            limits == ResourceLimits::spec_default(),
    {
        ResourceLimits {
            max_publishers: 16,
            max_subscribers: 256,
            max_servers: 16,
            max_clients: 256,
            max_segments: 64,
            max_segment_size: 64 * 1024 * 1024,
        }
    }
}

/// Quality of Service bounds for policy enforcement.
///
/// The bounds constrain what clients can request when they attach to a service. `None` stands for
/// no constraint.
#[derive(Debug, Clone, Copy, PartialEq, Eq, Hash)]
pub struct QosBounds {
    /// Maximum buffer size (in elements) a port may request.
    pub max_buffer_size: Option<usize>,
    /// Maximum history depth a publisher may request for what it publishes.
    pub max_history: Option<usize>,
}

/// Whether a value is within a bound.
pub open spec fn within(bound: Option<usize>, requested: usize) -> bool {
    match bound {
        Some(max) => requested <= max,
        None => true,
    }
}

impl Default for QosBounds {
    fn default() -> (bounds: Self)
        ensures
            bounds == (QosBounds { max_buffer_size: None, max_history: None }),
    {
        QosBounds::unbounded()
    }
}

impl QosBounds {
    /// Creates unbounded QoS (no constraints).
    pub fn unbounded() -> (bounds: QosBounds)
        ensures
            bounds == (QosBounds { max_buffer_size: None, max_history: None }),
    {
        QosBounds { max_buffer_size: None, max_history: None }
    }

    /// Creates QoS bounds with explicit limits.
    pub fn new(max_buffer_size: Option<usize>, max_history: Option<usize>) -> (bounds: QosBounds)
        ensures
            bounds == (QosBounds { max_buffer_size, max_history }),
    {
        QosBounds { max_buffer_size, max_history }
    }

    /// Checks whether a requested buffer size is within bounds.
    pub fn check_buffer_size(&self, requested: usize) -> (allowed: bool)
        ensures
            allowed == within(self.max_buffer_size, requested),
    {
        match self.max_buffer_size {
            Some(max) => requested <= max,
            None => true,
        }
    }

    /// Checks whether a requested history depth is within bounds.
    pub fn check_history(&self, requested: usize) -> (allowed: bool)
        ensures
            allowed == within(self.max_history, requested),
    {
        match self.max_history {
            Some(max) => requested <= max,
            None => true,
        }
    }
}

/// Policy trait for authorization decisions.
///
/// Each decision is one that the policy's own rule admits. A policy that decides by its
/// arguments alone admits one verdict for each question; a policy that consults anything else
/// may admit several, and one that states no rule admits them all.
pub trait IamPolicy: Send + Sync {
    /// What the policy may say to a process that connects.
    open spec fn may_decide_connect(&self, credentials: ProcessCredentials, verdict: Verdict) -> bool {
        true
    }

    /// What the policy may say to a process that creates a service.
    open spec fn may_decide_create(
        &self,
        credentials: ProcessCredentials,
        service_name: Seq<char>,
        messaging_pattern: MessagingPatternKind,
        verdict: Verdict,
    ) -> bool {
        true
    }

    /// What the policy may say to a process that attaches a port.
    open spec fn may_decide_attach(
        &self,
        credentials: ProcessCredentials,
        service_id: Seq<char>,
        port_type: PortType,
        verdict: Verdict,
    ) -> bool {
        true
    }

    /// What the policy may say to a process that adds a segment.
    open spec fn may_decide_add_segment(
        &self,
        credentials: ProcessCredentials,
        service_id: Seq<char>,
        requested_size: usize,
        verdict: Verdict,
    ) -> bool {
        true
    }

    /// The limits that the policy may set a process.
    open spec fn may_limit(&self, credentials: ProcessCredentials, limits: ResourceLimits) -> bool {
        true
    }

    /// The QoS bounds that the policy may set a process.
    open spec fn may_bound(&self, credentials: ProcessCredentials, bounds: QosBounds) -> bool {
        true
    }

    /// Check if credentials are allowed to create the service.
    fn authorize_create(
        &self,
        credentials: &ProcessCredentials,
        service_name: &ServiceName,
        messaging_pattern: MessagingPatternKind,
    ) -> (decision: PolicyDecision)
        ensures
            self.may_decide_create(
                *credentials,
                service_name@,
                messaging_pattern,
                decision@,
            ),
    ;

    /// Check if credentials are allowed to attach with given role.
    fn authorize_attach(
        &self,
        credentials: &ProcessCredentials,
        service_id: &ServiceId,
        port_type: PortType,
    ) -> (decision: PolicyDecision)
        ensures
            self.may_decide_attach(*credentials, service_id@, port_type, decision@),
    ;

    /// Check if credentials are allowed to add a segment.
    fn authorize_add_segment(
        &self,
        credentials: &ProcessCredentials,
        service_id: &ServiceId,
        requested_size: usize,
    ) -> (decision: PolicyDecision)
        ensures
            self.may_decide_add_segment(
                *credentials,
                service_id@,
                requested_size,
                decision@,
            ),
    ;

    /// Get resource limits for a principal.
    fn get_limits(&self, credentials: &ProcessCredentials) -> (limits: ResourceLimits)
        ensures
            self.may_limit(*credentials, limits),
    ;

    /// Called when a client connects; can reject early.
    fn authorize_connect(&self, credentials: &ProcessCredentials) -> (decision: PolicyDecision)
        ensures
            self.may_decide_connect(*credentials, decision@),
    ;

    /// Get QoS bounds for a principal.
    fn get_qos_bounds(&self, credentials: &ProcessCredentials) -> (bounds: QosBounds)
        ensures
            self.may_bound(*credentials, bounds),
    ;
}

/// What is said of the size of a segment: it must not be zero and not exceed the limit.
pub open spec fn size_verdict(limits: ResourceLimits, requested_size: usize) -> Verdict {
    if requested_size == 0 {
        Verdict::Deny {
            reason: DenialReason::PolicyViolation,
            message: "Zero-size segment requests are not allowed"@,
        }
    } else if requested_size > limits.max_segment_size {
        Verdict::Deny {
            reason: DenialReason::ResourceLimitExceeded,
            message: "Requested segment size exceeds maximum allowed"@,
        }
    } else {
        Verdict::Allow
    }
}

/// Checks the size of a segment against the limits.
pub(crate) fn check_segment_size(limits: &ResourceLimits, requested_size: usize) -> (decision:
    PolicyDecision)
    ensures
        decision@ == size_verdict(*limits, requested_size),
{
    if requested_size == 0 {
        return PolicyDecision::deny(
            DenialReason::PolicyViolation,
            "Zero-size segment requests are not allowed",
        );
    }
    if requested_size > limits.max_segment_size {
        return PolicyDecision::deny(
            DenialReason::ResourceLimitExceeded,
            "Requested segment size exceeds maximum allowed",
        );
    }
    PolicyDecision::allow()
}

/// Default policy: allow all processes of the owner, and no others.
///
/// The policy looks at user IDs only, and at each request by itself.
#[derive(Debug, Clone, Copy, PartialEq, Eq, Structural)]
pub struct DefaultPolicy {
    /// The user that is allowed access.
    pub owner_uid: u32,
    /// The limits that apply to the user.
    pub limits: ResourceLimits,
}

/// What is said to a process by its user alone.
pub open spec fn owner_verdict(
    credentials: ProcessCredentials,
    owner_uid: u32,
    message: Seq<char>,
) -> Verdict {
    if credentials.uid == owner_uid {
        Verdict::Allow
    } else {
        Verdict::Deny { reason: DenialReason::Unauthorized, message }
    }
}

impl DefaultPolicy {
    /// Create default policy for the owner of a process.
    pub fn new(credentials: &ProcessCredentials) -> (policy: DefaultPolicy)
        ensures
            policy == (DefaultPolicy {
                owner_uid: credentials.uid,
                limits: ResourceLimits::spec_default(),
            }),
    {
        DefaultPolicy { owner_uid: credentials.uid, limits: ResourceLimits::default() }
    }

    /// Create default policy with specific owner.
    pub fn with_owner(owner_uid: u32) -> (policy: DefaultPolicy)
        ensures
            policy == (DefaultPolicy { owner_uid, limits: ResourceLimits::spec_default() }),
    {
        DefaultPolicy { owner_uid, limits: ResourceLimits::default() }
    }

    /// Create with custom limits.
    pub fn with_limits(owner_uid: u32, limits: ResourceLimits) -> (policy: DefaultPolicy)
        ensures
            policy == (DefaultPolicy { owner_uid, limits }),
    {
        DefaultPolicy { owner_uid, limits }
    }

    /// Get the owner UID.
    pub fn owner_uid(&self) -> (uid: u32)
        ensures
            uid == self.owner_uid,
    {
        self.owner_uid
    }

    /// Get a reference to the resource limits.
    pub fn limits(&self) -> (limits: &ResourceLimits)
        ensures
            *limits == self.limits,
    {
        &self.limits
    }
}

impl IamPolicy for DefaultPolicy {
    open spec fn may_decide_connect(
        &self,
        credentials: ProcessCredentials,
        verdict: Verdict,
    ) -> bool {
        verdict == Verdict::Allow
    }

    open spec fn may_decide_create(
        &self,
        credentials: ProcessCredentials,
        service_name: Seq<char>,
        messaging_pattern: MessagingPatternKind,
        verdict: Verdict,
    ) -> bool {
        verdict == owner_verdict(
            credentials,
            self.owner_uid,
            "Only the owner can create services"@,
        )
    }

    open spec fn may_decide_attach(
        &self,
        credentials: ProcessCredentials,
        service_id: Seq<char>,
        port_type: PortType,
        verdict: Verdict,
    ) -> bool {
        verdict == owner_verdict(
            credentials,
            self.owner_uid,
            "Only the owner can attach to services"@,
        )
    }

    open spec fn may_decide_add_segment(
        &self,
        credentials: ProcessCredentials,
        service_id: Seq<char>,
        requested_size: usize,
        verdict: Verdict,
    ) -> bool {
        verdict == (if credentials.uid != self.owner_uid {
            Verdict::Deny {
                reason: DenialReason::Unauthorized,
                message: "Only the owner can add segments"@,
            }
        } else {
            size_verdict(self.limits, requested_size)
        })
    }

    open spec fn may_limit(
        &self,
        credentials: ProcessCredentials,
        limits: ResourceLimits,
    ) -> bool {
        limits == self.limits
    }

    open spec fn may_bound(&self, credentials: ProcessCredentials, bounds: QosBounds) -> bool {
        bounds == (QosBounds { max_buffer_size: None, max_history: None })
    }

    fn authorize_create(
        &self,
        credentials: &ProcessCredentials,
        service_name: &ServiceName,
        messaging_pattern: MessagingPatternKind,
    ) -> (decision: PolicyDecision) {
        if credentials.uid == self.owner_uid {
            PolicyDecision::allow()
        } else {
            PolicyDecision::deny(
                DenialReason::Unauthorized,
                "Only the owner can create services",
            )
        }
    }

    fn authorize_attach(
        &self,
        credentials: &ProcessCredentials,
        service_id: &ServiceId,
        port_type: PortType,
    ) -> (decision: PolicyDecision) {
        if credentials.uid == self.owner_uid {
            PolicyDecision::allow()
        } else {
            PolicyDecision::deny(
                DenialReason::Unauthorized,
                "Only the owner can attach to services",
            )
        }
    }

    fn authorize_add_segment(
        &self,
        credentials: &ProcessCredentials,
        service_id: &ServiceId,
        requested_size: usize,
    ) -> (decision: PolicyDecision) {
        if credentials.uid != self.owner_uid {
            return PolicyDecision::deny(
                DenialReason::Unauthorized,
                "Only the owner can add segments",
            );
        }
        check_segment_size(&self.limits, requested_size)
    }

    fn get_limits(&self, credentials: &ProcessCredentials) -> (limits: ResourceLimits) {
        self.limits
    }

    fn authorize_connect(&self, credentials: &ProcessCredentials) -> (decision: PolicyDecision) {
        PolicyDecision::allow()
    }

    fn get_qos_bounds(&self, credentials: &ProcessCredentials) -> (bounds: QosBounds) {
        QosBounds::unbounded()
    }
}

/// The default policy lets a process of another user connect and do nothing more.
pub proof fn law_default_policy_excludes_other_users(
    policy: DefaultPolicy,
    credentials: ProcessCredentials,
    text: Seq<char>,
    messaging_pattern: MessagingPatternKind,
    port_type: PortType,
    requested_size: usize,
    verdict: Verdict,
)
    requires
        credentials.uid != policy.owner_uid,
    ensures
        policy.may_decide_connect(credentials, verdict) ==> verdict is Allow,
        policy.may_decide_create(credentials, text, messaging_pattern, verdict) ==> verdict is Deny
            && verdict->reason is Unauthorized,
        policy.may_decide_attach(credentials, text, port_type, verdict) ==> verdict is Deny
            && verdict->reason is Unauthorized,
        policy.may_decide_add_segment(credentials, text, requested_size, verdict) ==> verdict is Deny
            && verdict->reason is Unauthorized,
{
}

/// The default policy allows its owner every port and pattern, and every segment that is not
/// empty and not larger than the limit, the largest size being allowed.
pub proof fn law_default_policy_serves_owner(
    policy: DefaultPolicy,
    credentials: ProcessCredentials,
    text: Seq<char>,
    messaging_pattern: MessagingPatternKind,
    port_type: PortType,
    requested_size: usize,
    verdict: Verdict,
)
    requires
        credentials.uid == policy.owner_uid,
    ensures
        policy.may_decide_create(credentials, text, messaging_pattern, verdict) ==> verdict
            is Allow,
        policy.may_decide_attach(credentials, text, port_type, verdict) ==> verdict is Allow,
        policy.may_decide_add_segment(credentials, text, requested_size, verdict) ==> (verdict
            is Allow <==> 0 < requested_size <= policy.limits.max_segment_size),
{
}

/// The default policy denies in words that say what is refused: to another user creating services,
/// attaching to them and adding segments, to the owner an empty segment and one that is too large.
pub proof fn law_default_policy_says_why(
    policy: DefaultPolicy,
    credentials: ProcessCredentials,
    text: Seq<char>,
    messaging_pattern: MessagingPatternKind,
    port_type: PortType,
    requested_size: usize,
    verdict: Verdict,
)
    ensures
        ({
            let stranger = credentials.uid != policy.owner_uid;
            &&& policy.may_decide_connect(credentials, verdict) <==> verdict == Verdict::Allow
            &&& stranger && policy.may_decide_create(credentials, text, messaging_pattern, verdict)
                ==> verdict == (Verdict::Deny {
                reason: DenialReason::Unauthorized,
                message: "Only the owner can create services"@,
            })
            &&& stranger && policy.may_decide_attach(credentials, text, port_type, verdict)
                ==> verdict == (Verdict::Deny {
                reason: DenialReason::Unauthorized,
                message: "Only the owner can attach to services"@,
            })
            &&& stranger && policy.may_decide_add_segment(credentials, text, requested_size, verdict)
                ==> verdict == (Verdict::Deny {
                reason: DenialReason::Unauthorized,
                message: "Only the owner can add segments"@,
            })
            &&& !stranger && requested_size == 0 && policy.may_decide_add_segment(
                credentials,
                text,
                requested_size,
                verdict,
            ) ==> verdict == (Verdict::Deny {
                reason: DenialReason::PolicyViolation,
                message: "Zero-size segment requests are not allowed"@,
            })
            &&& !stranger && requested_size > policy.limits.max_segment_size && requested_size > 0
                && policy.may_decide_add_segment(credentials, text, requested_size, verdict)
                ==> verdict == (Verdict::Deny {
                reason: DenialReason::ResourceLimitExceeded,
                message: "Requested segment size exceeds maximum allowed"@,
            })
        }),
{
}

/// The default policy sets every process its own limits, and bounds nothing.
pub proof fn law_default_policy_bounds_nothing(
    policy: DefaultPolicy,
    credentials: ProcessCredentials,
    limits: ResourceLimits,
    bounds: QosBounds,
    requested: usize,
)
    ensures
        policy.may_limit(credentials, limits) <==> limits == policy.limits,
        policy.may_bound(credentials, bounds) <==> bounds.max_buffer_size is None
            && bounds.max_history is None,
        policy.may_bound(credentials, bounds) ==> within(bounds.max_buffer_size, requested)
            && within(bounds.max_history, requested),
{
}

/// The limit on ports of each type is the one that is named after the type, and where no limits are
/// set there are 16 publishers and servers, 256 subscribers and clients, and 64 segments of 64 MB.
pub proof fn law_limits_are_by_type(limits: ResourceLimits)
    ensures
        limits.port_limit(PortType::Publisher) == limits.max_publishers,
        limits.port_limit(PortType::Subscriber) == limits.max_subscribers,
        limits.port_limit(PortType::Server) == limits.max_servers,
        limits.port_limit(PortType::Client) == limits.max_clients,
        ResourceLimits::spec_default() == (ResourceLimits {
            max_publishers: 16,
            max_subscribers: 256,
            max_servers: 16,
            max_clients: 256,
            max_segments: 64,
            max_segment_size: 67108864,
        }),
        0 < ResourceLimits::spec_default().max_segment_size <= MAX_REASONABLE_SEGMENT_SIZE,
        MAX_REASONABLE_SEGMENT_SIZE == 1073741824,
{
}

/// A bound admits what does not exceed it, itself among it; without a bound anything is admitted.
pub proof fn law_bounds_are_inclusive(max: usize, requested: usize)
    ensures
        within(Some(max), requested) <==> requested <= max,
        within(None, requested),
{
}

/// What a decision says is what it is: it allows, or denies for the same reason and with the same
/// message.
pub proof fn law_verdicts_are_as_decisions(decision: PolicyDecision)
    ensures
        decision is Allow <==> decision@ is Allow,
        decision matches PolicyDecision::Deny { reason, message } ==> {
            &&& decision@ matches Verdict::Deny { reason: told, message: text }
            &&& told == reason
            &&& text == message@
        },
{
}

} // verus!
