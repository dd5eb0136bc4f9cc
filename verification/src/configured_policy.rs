//! Policies that a file configures: who is denied, who is allowed which roles, and the limits.
//!
//! Deny rules come first, then allow rules. What no rule allows is denied.

use vstd::prelude::*;
use crate::policy;
use crate::policy::{
    check_segment_size, DefaultPolicy, IamPolicy, PolicyDecision, QosBounds, ResourceLimits,
    Verdict,
};
use crate::protocol::{DenialReason, MessagingPatternKind, PortType};
use crate::text;
use crate::text::{chars_of, parse_number, strip_ending, to_uppercase, trim};
use crate::types::{ProcessCredentials, ServiceId, ServiceName};

verus! {

/// Errors that can occur when loading a policy file.
#[derive(Debug)]
pub enum PolicyLoadError {
    /// The policy file was not found for the given service.
    NotFound,
    /// An I/O error occurred reading the policy file.
    IoError(String),
    /// The TOML content could not be parsed.
    ParseError(String),
    /// The policy file content is invalid, or is for another service.
    ValidationError(String),
}

impl PolicyLoadError {
    /// The error of a policy file that could not be read, given whether that is because there is
    /// none.
    pub fn from_read(not_found: bool, detail: String) -> (error: PolicyLoadError)
        ensures
            error == (if not_found {
                PolicyLoadError::NotFound
            } else {
                PolicyLoadError::IoError(detail)
            }),
    {
        if not_found {
            PolicyLoadError::NotFound
        } else {
            PolicyLoadError::IoError(detail)
        }
    }

    /// The text that describes the error.
    pub open spec fn text(self) -> Seq<char> {
        match self {
            PolicyLoadError::NotFound => "Policy file not found"@,
            PolicyLoadError::IoError(detail) => "I/O error reading policy file: "@ + detail@,
            PolicyLoadError::ParseError(detail) => "TOML parse error: "@ + detail@,
            PolicyLoadError::ValidationError(detail) => "Policy validation error: "@ + detail@,
        }
    }

    /// Returns the text that describes the error.
    pub fn to_string(&self) -> (text: String)
        ensures
            text@ == self.text(),
    {
        match self {
            PolicyLoadError::NotFound => "Policy file not found".to_owned(),
            PolicyLoadError::IoError(detail) => {
                let mut text = "I/O error reading policy file: ".to_owned();
                text.append(detail.as_str());
                text
            },
            PolicyLoadError::ParseError(detail) => {
                let mut text = "TOML parse error: ".to_owned();
                text.append(detail.as_str());
                text
            },
            PolicyLoadError::ValidationError(detail) => {
                let mut text = "Policy validation error: ".to_owned();
                text.append(detail.as_str());
                text
            },
        }
    }
}

/// Top-level policy file structure.
#[derive(Debug, Clone)]
pub struct PolicyFile {
    /// Service identification section.
    pub service: ServiceSection,
    /// Allow rules (evaluated after deny rules).
    pub allow: Vec<AllowRule>,
    /// Deny rules (evaluated first).
    pub deny: Vec<DenyRule>,
    /// Optional resource limits.
    pub limits: Option<PolicyLimits>,
    /// Optional QoS bounds.
    pub qos: Option<PolicyQos>,
}

/// Service identification section.
#[derive(Debug, Clone)]
pub struct ServiceSection {
    /// The service name this policy applies to.
    pub name: String,
}

/// An allow rule that grants access to matching principals.
#[derive(Debug, Clone)]
pub struct AllowRule {
    /// The principal matcher for this rule.
    pub principal: PrincipalMatcher,
    /// The roles granted by this rule: "publisher", "subscriber", "server", "client".
    pub roles: Vec<String>,
}

/// A deny rule that blocks matching principals.
#[derive(Debug, Clone)]
pub struct DenyRule {
    /// The principal matcher for this rule.
    pub principal: PrincipalMatcher,
    /// Optional human-readable reason for the denial.
    pub reason: Option<String>,
}

/// Marker for the "any" principal matcher.
#[derive(Debug, Clone, Copy)]
pub struct AnyMarker;

impl AnyMarker {
    /// Reads the marker, which is written "any". For any other text, the error says what was
    /// expected.
    pub fn from_text(text: &str) -> (marker: Result<AnyMarker, String>)
        ensures
            match marker {
                Ok(_) => text@ == "any"@,
                Err(error) => text@ != "any"@ && error@ == "expected \"any\", got \""@ + text@
                    + "\""@,
            },
    {
        if text.to_owned() == "any".to_owned() {
            Ok(AnyMarker)
        } else {
            let mut error = "expected \"any\", got \"".to_owned();
            error.append(text);
            error.append("\"");
            Err(error)
        }
    }
}

/// Matcher for identifying principals in policy rules.
#[derive(Debug, Clone, Copy)]
pub enum PrincipalMatcher {
    /// Match by specific UID.
    Uid {
        /// The user ID to match.
        uid: u32,
    },
    /// Match by specific GID.
    Gid {
        /// The group ID to match.
        gid: u32,
    },
    /// Match by UID range, written as an array.
    UidRangeArray {
        /// Two-element array: [min, max] (both inclusive).
        uid_range: [u32; 2],
    },
    /// Match by UID range, written with named fields.
    UidRange {
        /// Minimum UID (inclusive).
        min: u32,
        /// Maximum UID (inclusive).
        max: u32,
    },
    /// Match any principal.
    Any(AnyMarker),
}

/// Whether a process is one of those that a rule is about.
pub open spec fn principal_matches(
    principal: PrincipalMatcher,
    credentials: ProcessCredentials,
) -> bool {
    match principal {
        PrincipalMatcher::Uid { uid } => credentials.uid == uid,
        PrincipalMatcher::Gid { gid } => credentials.gid == gid,
        PrincipalMatcher::UidRangeArray { uid_range } => uid_range@[0] <= credentials.uid
            <= uid_range@[1],
        PrincipalMatcher::UidRange { min, max } => min <= credentials.uid <= max,
        PrincipalMatcher::Any(_) => true,
    }
}

impl PrincipalMatcher {
    /// Checks if the given credentials match this principal matcher.
    pub fn matches(&self, credentials: &ProcessCredentials) -> (matched: bool)
        ensures
            matched == principal_matches(*self, *credentials),
    {
        match self {
            PrincipalMatcher::Uid { uid } => credentials.uid == *uid,
            PrincipalMatcher::Gid { gid } => credentials.gid == *gid,
            PrincipalMatcher::UidRangeArray { uid_range } => {
                credentials.uid >= uid_range[0] && credentials.uid <= uid_range[1]
            },
            PrincipalMatcher::UidRange { min, max } => {
                credentials.uid >= *min && credentials.uid <= *max
            },
            PrincipalMatcher::Any(_) => true,
        }
    }
}

/// Resource limits from a policy file; the size is text like "64MB".
#[derive(Debug, Clone)]
pub struct PolicyLimits {
    /// Maximum number of publishers.
    pub max_publishers: Option<usize>,
    /// Maximum number of subscribers.
    pub max_subscribers: Option<usize>,
    /// Maximum number of servers.
    pub max_servers: Option<usize>,
    /// Maximum number of clients.
    pub max_clients: Option<usize>,
    /// Maximum number of segments.
    pub max_segments: Option<usize>,
    /// Maximum segment size (human-readable, e.g., "64MB").
    pub max_segment_size: Option<String>,
}

/// QoS bounds from a policy file.
#[derive(Debug, Clone, Copy)]
pub struct PolicyQos {
    /// Maximum buffer size (in elements).
    pub max_buffer_size: Option<usize>,
    /// Maximum history depth of a publisher.
    pub max_history: Option<usize>,
}

impl PolicyQos {
    /// Converts to [`QosBounds`].
    pub fn to_qos_bounds(&self) -> (bounds: QosBounds)
        ensures
            bounds == (QosBounds {
                max_buffer_size: self.max_buffer_size,
                max_history: self.max_history,
            }),
    {
        QosBounds::new(self.max_buffer_size, self.max_history)
    }
}

/// A number in units.
pub open spec fn in_units(number: Option<usize>, unit: int) -> Option<int> {
    match number {
        Some(n) => Some(n * unit),
        None => None,
    }
}

/// The size in bytes that a text without white space around it stands for, given the text in
/// capital letters: a number of gigabytes, megabytes or kilobytes by its ending, else of bytes.
pub open spec fn sized(plain: Seq<char>, upper: Seq<char>) -> Option<int> {
    if plain.len() == 0 {
        None
    } else if let Some(front) = text::before_ending(upper, 'G', 'B') {
        in_units(text::number_in(text::trimmed(front)), 1024 * 1024 * 1024int)
    } else if let Some(front) = text::before_ending(upper, 'M', 'B') {
        in_units(text::number_in(text::trimmed(front)), 1024 * 1024int)
    } else if let Some(front) = text::before_ending(upper, 'K', 'B') {
        in_units(text::number_in(text::trimmed(front)), 1024)
    } else {
        in_units(text::number_in(plain), 1)
    }
}

/// The units of sizes.
#[derive(Debug, Clone, Copy, PartialEq, Eq, Structural)]
pub enum SizeUnit {
    /// 1024 bytes.
    Kilobyte,
    /// 1024 kilobytes.
    Megabyte,
    /// 1024 megabytes.
    Gigabyte,
}

impl SizeUnit {
    /// The letter that stands for the unit before the letter for bytes.
    pub open spec fn letter(self) -> char {
        match self {
            SizeUnit::Kilobyte => 'K',
            SizeUnit::Megabyte => 'M',
            SizeUnit::Gigabyte => 'G',
        }
    }

    /// The number of bytes.
    pub open spec fn bytes(self) -> int {
        match self {
            SizeUnit::Kilobyte => 1024,
            SizeUnit::Megabyte => 1024 * 1024int,
            SizeUnit::Gigabyte => 1024 * 1024 * 1024int,
        }
    }
}

/// Whether a text in capital letters ends with a unit.
pub open spec fn has_unit(upper: Seq<char>) -> bool {
    ||| text::before_ending(upper, 'G', 'B') is Some
    ||| text::before_ending(upper, 'M', 'B') is Some
    ||| text::before_ending(upper, 'K', 'B') is Some
}

/// The size in bytes that a text stands for.
pub open spec fn size_in(s: Seq<char>) -> Option<int> {
    sized(text::trimmed(s), text::uppercase_of(text::trimmed(s)))
}

/// Whether a size can be held.
pub open spec fn fits(size: Option<int>) -> bool {
    match size {
        Some(bytes) => bytes <= usize::MAX,
        None => true,
    }
}

/// A size that can be held.
pub open spec fn held(size: Option<int>) -> Option<usize> {
    match size {
        Some(bytes) => Some(bytes as usize),
        None => None,
    }
}

/// Returns a number of units as a number of bytes, `None` if that is too large.
fn times(number: Option<usize>, unit: usize) -> (size: Option<Option<usize>>)
    ensures
        match size {
            Some(bytes) => fits(in_units(number, unit as int)) && bytes == held(
                in_units(number, unit as int),
            ),
            None => !fits(in_units(number, unit as int)),
        },
{
    match number {
        Some(n) => match n.checked_mul(unit) {
            Some(bytes) => Some(Some(bytes)),
            None => None,
        },
        None => Some(None),
    }
}

/// Parses a size, given the text without white space around it and the same text in capital
/// letters. The outer `None` stands for a size that is too large to be held, the inner one for
/// a text that is no size.
pub fn parse_sized(plain: &str, upper: &str) -> (size: Option<Option<usize>>)
    ensures
        match size {
            Some(bytes) => fits(sized(plain@, upper@)) && bytes == held(sized(plain@, upper@)),
            None => !fits(sized(plain@, upper@)),
        },
{
    if plain.is_empty() {
        return Some(None);
    }
    if let Some(front) = strip_ending(upper, 'G', 'B') {
        return times(parse_number(trim(front.as_str()).as_str()), 1024 * 1024 * 1024);
    }
    if let Some(front) = strip_ending(upper, 'M', 'B') {
        return times(parse_number(trim(front.as_str()).as_str()), 1024 * 1024);
    }
    if let Some(front) = strip_ending(upper, 'K', 'B') {
        return times(parse_number(trim(front.as_str()).as_str()), 1024);
    }
    times(parse_number(plain), 1)
}

/// Parses a human-readable size. The outer `None` stands for a size that is too large to be
/// held, the inner one for a text that is no size.
pub fn parse_any_size_string(s: &str) -> (size: Option<Option<usize>>)
    ensures
        match size {
            Some(bytes) => fits(size_in(s@)) && bytes == held(size_in(s@)),
            None => !fits(size_in(s@)),
        },
{
    let plain = trim(s);
    let upper = to_uppercase(plain.as_str());
    parse_sized(plain.as_str(), upper.as_str())
}

/// Parses a human-readable size string into bytes.
///
/// "64MB" and "64mb" are 64 * 1024 * 1024, "1GB" is 1024 * 1024 * 1024, "4KB" is 4096, and a
/// plain number is a number of bytes. Returns `None` if the string cannot be parsed. The size
/// must be one that can be held, see [`parse_any_size_string`].
pub fn parse_size_string(s: &str) -> (size: Option<usize>)
    requires
        fits(size_in(s@)),
    ensures
        size == held(size_in(s@)),
{
    match parse_any_size_string(s) {
        Some(size) => size,
        None => None,
    }
}

/// The value of a setting, or what holds where it is not set.
pub open spec fn or_default(setting: Option<usize>, default: usize) -> usize {
    match setting {
        Some(value) => value,
        None => default,
    }
}

/// The size that a file sets; none where it sets none or something that is no size.
pub open spec fn configured_size(limits: PolicyLimits) -> Option<int> {
    match limits.max_segment_size {
        Some(s) => size_in(s@),
        None => None,
    }
}

/// The limits that a file sets, with the defaults where it sets none.
pub open spec fn configured_limits(limits: PolicyLimits) -> ResourceLimits {
    let default = ResourceLimits::spec_default();
    ResourceLimits {
        max_publishers: or_default(limits.max_publishers, default.max_publishers),
        max_subscribers: or_default(limits.max_subscribers, default.max_subscribers),
        max_servers: or_default(limits.max_servers, default.max_servers),
        max_clients: or_default(limits.max_clients, default.max_clients),
        max_segments: or_default(limits.max_segments, default.max_segments),
        max_segment_size: or_default(held(configured_size(limits)), default.max_segment_size),
    }
}

/// Returns the value of a setting, or what holds where it is not set.
fn value_or(setting: Option<usize>, default: usize) -> (value: usize)
    ensures
        value == or_default(setting, default),
{
    match setting {
        Some(value) => value,
        None => default,
    }
}

impl PolicyLimits {
    /// Returns `true` if the segment size, where one is set, can be held.
    pub fn size_fits(&self) -> (fit: bool)
        ensures
            fit == fits(configured_size(*self)),
    {
        match &self.max_segment_size {
            Some(s) => parse_any_size_string(s.as_str()).is_some(),
            None => true,
        }
    }

    /// Converts to [`ResourceLimits`], using defaults for unspecified values.
    ///
    /// A segment size that cannot be parsed counts as unspecified. One that is too large to be
    /// held is not allowed, see [`PolicyLimits::size_fits`].
    pub fn to_resource_limits(&self) -> (limits: ResourceLimits)
        requires
            fits(configured_size(*self)),
        ensures
            limits == configured_limits(*self),
    {
        let default = ResourceLimits::default();
        let size: Option<usize> = match &self.max_segment_size {
            Some(s) => parse_size_string(s.as_str()),
            None => None,
        };
        ResourceLimits {
            max_publishers: value_or(self.max_publishers, default.max_publishers),
            max_subscribers: value_or(self.max_subscribers, default.max_subscribers),
            max_servers: value_or(self.max_servers, default.max_servers),
            max_clients: value_or(self.max_clients, default.max_clients),
            max_segments: value_or(self.max_segments, default.max_segments),
            max_segment_size: value_or(size, default.max_segment_size),
        }
    }
}

/// Policy implementation driven by configured rules.
#[derive(Debug, Clone)]
pub struct ConfiguredPolicy {
    /// The UID of the service owner.
    pub owner_uid: u32,
    /// Allow rules.
    pub allow_rules: Vec<AllowRule>,
    /// Deny rules.
    pub deny_rules: Vec<DenyRule>,
    /// Resource limits.
    pub limits: ResourceLimits,
    /// QoS bounds.
    pub qos_bounds: QosBounds,
}

/// The message of a deny rule.
pub open spec fn denial_message(rule: DenyRule) -> Seq<char> {
    match rule.reason {
        Some(reason) => reason@,
        None => "Denied by policy rule"@,
    }
}

/// The message of the first of the deny rules from `i` on that matches.
pub open spec fn denial_from(
    rules: Seq<DenyRule>,
    credentials: ProcessCredentials,
    i: int,
) -> Option<Seq<char>>
    decreases rules.len() - i,
{
    if i < 0 || i >= rules.len() {
        None
    } else if principal_matches(rules[i].principal, credentials) {
        Some(denial_message(rules[i]))
    } else {
        denial_from(rules, credentials, i + 1)
    }
}

/// Whether a rule grants a role.
pub open spec fn grants(rule: AllowRule, role: Seq<char>) -> bool {
    exists|i: int| 0 <= i < rule.roles@.len() && (#[trigger] rule.roles@[i])@ == role
}

/// Whether an allow rule matches.
pub open spec fn allowed(rules: Seq<AllowRule>, credentials: ProcessCredentials) -> bool {
    exists|i: int|
        0 <= i < rules.len() && principal_matches((#[trigger] rules[i]).principal, credentials)
}

/// Whether an allow rule matches and grants a role.
pub open spec fn allowed_role(
    rules: Seq<AllowRule>,
    credentials: ProcessCredentials,
    role: Seq<char>,
) -> bool {
    exists|i: int|
        0 <= i < rules.len() && principal_matches((#[trigger] rules[i]).principal, credentials)
            && grants(rules[i], role)
}

/// The role that a port needs.
pub open spec fn role_of(port_type: PortType) -> Seq<char> {
    match port_type {
        PortType::Publisher => "publisher"@,
        PortType::Subscriber => "subscriber"@,
        PortType::Server => "server"@,
        PortType::Client => "client"@,
    }
}

impl ConfiguredPolicy {
    /// The verdict of the deny rules on a process, and where they say nothing another one.
    pub open spec fn unless_denied(
        self,
        credentials: ProcessCredentials,
        verdict: Verdict,
    ) -> Verdict {
        match denial_from(self.deny_rules@, credentials, 0) {
            Some(message) => Verdict::Deny { reason: DenialReason::PolicyViolation, message },
            None => verdict,
        }
    }

    /// The verdict on a process that creates a service.
    pub open spec fn create_verdict(self, credentials: ProcessCredentials) -> Verdict {
        self.unless_denied(
            credentials,
            if allowed(self.allow_rules@, credentials) {
                Verdict::Allow
            } else {
                Verdict::Deny {
                    reason: DenialReason::Unauthorized,
                    message: "No matching allow rule for service creation"@,
                }
            },
        )
    }

    /// The verdict on a process that attaches a port.
    pub open spec fn attach_verdict(
        self,
        credentials: ProcessCredentials,
        port_type: PortType,
    ) -> Verdict {
        self.unless_denied(
            credentials,
            if allowed_role(self.allow_rules@, credentials, role_of(port_type)) {
                Verdict::Allow
            } else {
                Verdict::Deny {
                    reason: DenialReason::Unauthorized,
                    message: "No allow rule grants '"@ + role_of(port_type)
                        + "' role for this principal"@,
                }
            },
        )
    }

    /// The verdict on a process that adds a segment.
    pub open spec fn segment_verdict(
        self,
        credentials: ProcessCredentials,
        requested_size: usize,
    ) -> Verdict {
        self.unless_denied(
            credentials,
            if credentials.uid != self.owner_uid {
                Verdict::Deny {
                    reason: DenialReason::Unauthorized,
                    message: "Only the service owner can add segments"@,
                }
            } else if !allowed(self.allow_rules@, credentials) {
                Verdict::Deny {
                    reason: DenialReason::Unauthorized,
                    message: "No matching allow rule for segment creation"@,
                }
            } else {
                policy::size_verdict(self.limits, requested_size)
            },
        )
    }

    /// Creates a new configured policy without QoS bounds.
    pub fn new(
        owner_uid: u32,
        allow_rules: Vec<AllowRule>,
        deny_rules: Vec<DenyRule>,
        limits: ResourceLimits,
    ) -> (policy: ConfiguredPolicy)
        ensures
            policy == (ConfiguredPolicy {
                owner_uid,
                allow_rules,
                deny_rules,
                limits,
                qos_bounds: QosBounds { max_buffer_size: None, max_history: None },
            }),
    {
        ConfiguredPolicy {
            owner_uid,
            allow_rules,
            deny_rules,
            limits,
            qos_bounds: QosBounds::unbounded(),
        }
    }

    /// Creates a new configured policy with QoS bounds.
    pub fn with_qos_bounds(
        owner_uid: u32,
        allow_rules: Vec<AllowRule>,
        deny_rules: Vec<DenyRule>,
        limits: ResourceLimits,
        qos_bounds: QosBounds,
    ) -> (policy: ConfiguredPolicy)
        ensures
            policy == (ConfiguredPolicy { owner_uid, allow_rules, deny_rules, limits, qos_bounds }),
    {
        ConfiguredPolicy { owner_uid, allow_rules, deny_rules, limits, qos_bounds }
    }

    /// Creates a configured policy from a parsed [`PolicyFile`].
    pub fn from_policy_file(policy_file: PolicyFile, owner_uid: u32) -> (policy: ConfiguredPolicy)
        requires
            policy_file.limits matches Some(limits) ==> fits(configured_size(limits)),
        ensures
            policy == policy_of(policy_file, owner_uid),
    {
        let limits = match &policy_file.limits {
            Some(limits) => limits.to_resource_limits(),
            None => ResourceLimits::default(),
        };
        let qos_bounds = match &policy_file.qos {
            Some(qos) => qos.to_qos_bounds(),
            None => QosBounds::default(),
        };
        ConfiguredPolicy::with_qos_bounds(
            owner_uid,
            policy_file.allow,
            policy_file.deny,
            limits,
            qos_bounds,
        )
    }

    /// Checks if the credentials match any deny rule, and returns the denial of the first.
    fn check_deny(&self, credentials: &ProcessCredentials) -> (denial: Option<PolicyDecision>)
        ensures
            match denial {
                Some(decision) => denial_from(self.deny_rules@, *credentials, 0) matches Some(
                    message,
                ) && decision@ == (Verdict::Deny {
                    reason: DenialReason::PolicyViolation,
                    message,
                }),
                None => denial_from(self.deny_rules@, *credentials, 0) is None,
            },
    {
        let mut i: usize = 0;
        while i < self.deny_rules.len()
            invariant
                i <= self.deny_rules@.len(),
                denial_from(self.deny_rules@, *credentials, 0) == denial_from(
                    self.deny_rules@,
                    *credentials,
                    i as int,
                ),
            decreases self.deny_rules@.len() - i,
        {
            let rule = &self.deny_rules[i];
            if rule.principal.matches(credentials) {
                return Some(
                    match &rule.reason {
                        Some(reason) => PolicyDecision::deny(
                            DenialReason::PolicyViolation,
                            reason.as_str(),
                        ),
                        None => PolicyDecision::deny(
                            DenialReason::PolicyViolation,
                            "Denied by policy rule",
                        ),
                    },
                );
            }
            i += 1;
        }
        None
    }

    /// Checks if the credentials match any allow rule with the required role.
    fn check_allow_with_role(&self, credentials: &ProcessCredentials, required_role: &str) -> (found:
        bool)
        ensures
            found == allowed_role(self.allow_rules@, *credentials, required_role@),
    {
        let mut i: usize = 0;
        while i < self.allow_rules.len()
            invariant
                i <= self.allow_rules@.len(),
                forall|j: int|
                    0 <= j < i ==> !(principal_matches(
                        (#[trigger] self.allow_rules@[j]).principal,
                        *credentials,
                    ) && grants(self.allow_rules@[j], required_role@)),
            decreases self.allow_rules@.len() - i,
        {
            let rule = &self.allow_rules[i];
            if rule.principal.matches(credentials) && has_role(rule, required_role) {
                return true;
            }
            i += 1;
        }
        false
    }

    /// Checks if the credentials match any allow rule (regardless of role).
    fn check_allow_any_role(&self, credentials: &ProcessCredentials) -> (found: bool)
        ensures
            found == allowed(self.allow_rules@, *credentials),
    {
        let mut i: usize = 0;
        while i < self.allow_rules.len()
            invariant
                i <= self.allow_rules@.len(),
                forall|j: int|
                    0 <= j < i ==> !principal_matches(
                        (#[trigger] self.allow_rules@[j]).principal,
                        *credentials,
                    ),
            decreases self.allow_rules@.len() - i,
        {
            if self.allow_rules[i].principal.matches(credentials) {
                return true;
            }
            i += 1;
        }
        false
    }
}

/// The policy that a file configures.
pub open spec fn policy_of(policy_file: PolicyFile, owner_uid: u32) -> ConfiguredPolicy {
    ConfiguredPolicy {
        owner_uid,
        allow_rules: policy_file.allow,
        deny_rules: policy_file.deny,
        limits: match policy_file.limits {
            Some(limits) => configured_limits(limits),
            None => ResourceLimits::spec_default(),
        },
        qos_bounds: match policy_file.qos {
            Some(qos) => QosBounds {
                max_buffer_size: qos.max_buffer_size,
                max_history: qos.max_history,
            },
            None => QosBounds { max_buffer_size: None, max_history: None },
        },
    }
}

/// Returns `true` if a rule grants a role.
fn has_role(rule: &AllowRule, role: &str) -> (found: bool)
    ensures
        found == grants(*rule, role@),
{
    let wanted = role.to_owned();
    let mut i: usize = 0;
    while i < rule.roles.len()
        invariant
            i <= rule.roles@.len(),
            wanted@ == role@,
            forall|j: int| 0 <= j < i ==> (#[trigger] rule.roles@[j])@ != role@,
        decreases rule.roles@.len() - i,
    {
        if rule.roles[i] == wanted {
            return true;
        }
        i += 1;
    }
    false
}

impl IamPolicy for ConfiguredPolicy {
    open spec fn may_decide_connect(
        &self,
        credentials: ProcessCredentials,
        verdict: Verdict,
    ) -> bool {
        verdict == self.unless_denied(credentials, Verdict::Allow)
    }

    open spec fn may_decide_create(
        &self,
        credentials: ProcessCredentials,
        service_name: Seq<char>,
        messaging_pattern: MessagingPatternKind,
        verdict: Verdict,
    ) -> bool {
        verdict == self.create_verdict(credentials)
    }

    open spec fn may_decide_attach(
        &self,
        credentials: ProcessCredentials,
        service_id: Seq<char>,
        port_type: PortType,
        verdict: Verdict,
    ) -> bool {
        verdict == self.attach_verdict(credentials, port_type)
    }

    open spec fn may_decide_add_segment(
        &self,
        credentials: ProcessCredentials,
        service_id: Seq<char>,
        requested_size: usize,
        verdict: Verdict,
    ) -> bool {
        verdict == self.segment_verdict(credentials, requested_size)
    }

    open spec fn may_limit(
        &self,
        credentials: ProcessCredentials,
        limits: ResourceLimits,
    ) -> bool {
        limits == self.limits
    }

    open spec fn may_bound(&self, credentials: ProcessCredentials, bounds: QosBounds) -> bool {
        bounds == self.qos_bounds
    }

    fn authorize_create(
        &self,
        credentials: &ProcessCredentials,
        service_name: &ServiceName,
        messaging_pattern: MessagingPatternKind,
    ) -> (decision: PolicyDecision) {
        if let Some(decision) = self.check_deny(credentials) {
            return decision;
        }
        if self.check_allow_any_role(credentials) {
            PolicyDecision::allow()
        } else {
            PolicyDecision::deny(
                DenialReason::Unauthorized,
                "No matching allow rule for service creation",
            )
        }
    }

    fn authorize_attach(
        &self,
        credentials: &ProcessCredentials,
        service_id: &ServiceId,
        port_type: PortType,
    ) -> (decision: PolicyDecision) {
        if let Some(decision) = self.check_deny(credentials) {
            return decision;
        }
        let required_role = match port_type {
            PortType::Publisher => "publisher",
            PortType::Subscriber => "subscriber",
            PortType::Server => "server",
            PortType::Client => "client",
        };
        if self.check_allow_with_role(credentials, required_role) {
            PolicyDecision::allow()
        } else {
            let mut message = "No allow rule grants '".to_owned();
            message.append(required_role);
            message.append("' role for this principal");
            PolicyDecision::deny(DenialReason::Unauthorized, message.as_str())
        }
    }

    fn authorize_add_segment(
        &self,
        credentials: &ProcessCredentials,
        service_id: &ServiceId,
        requested_size: usize,
    ) -> (decision: PolicyDecision) {
        if let Some(decision) = self.check_deny(credentials) {
            return decision;
        }
        if credentials.uid != self.owner_uid {
            return PolicyDecision::deny(
                DenialReason::Unauthorized,
                "Only the service owner can add segments",
            );
        }
        if !self.check_allow_any_role(credentials) {
            return PolicyDecision::deny(
                DenialReason::Unauthorized,
                "No matching allow rule for segment creation",
            );
        }
        check_segment_size(&self.limits, requested_size)
    }

    fn get_limits(&self, credentials: &ProcessCredentials) -> (limits: ResourceLimits) {
        self.limits
    }

    fn authorize_connect(&self, credentials: &ProcessCredentials) -> (decision: PolicyDecision) {
        if let Some(decision) = self.check_deny(credentials) {
            return decision;
        }
        PolicyDecision::allow()
    }

    fn get_qos_bounds(&self, credentials: &ProcessCredentials) -> (bounds: QosBounds) {
        self.qos_bounds
    }
}

/// Either of the two policies of the library.
#[derive(Debug, Clone)]
pub enum PolicyDispatch {
    /// The default UID-based policy.
    Default(DefaultPolicy),
    /// A configured policy.
    Configured(ConfiguredPolicy),
}

impl IamPolicy for PolicyDispatch {
    open spec fn may_decide_connect(
        &self,
        credentials: ProcessCredentials,
        verdict: Verdict,
    ) -> bool {
        match self {
            PolicyDispatch::Default(policy) => policy.may_decide_connect(credentials, verdict),
            PolicyDispatch::Configured(policy) => policy.may_decide_connect(credentials, verdict),
        }
    }

    open spec fn may_decide_create(
        &self,
        credentials: ProcessCredentials,
        service_name: Seq<char>,
        messaging_pattern: MessagingPatternKind,
        verdict: Verdict,
    ) -> bool {
        match self {
            PolicyDispatch::Default(policy) => policy.may_decide_create(
                credentials,
                service_name,
                messaging_pattern,
                verdict,
            ),
            PolicyDispatch::Configured(policy) => policy.may_decide_create(
                credentials,
                service_name,
                messaging_pattern,
                verdict,
            ),
        }
    }

    open spec fn may_decide_attach(
        &self,
        credentials: ProcessCredentials,
        service_id: Seq<char>,
        port_type: PortType,
        verdict: Verdict,
    ) -> bool {
        match self {
            PolicyDispatch::Default(policy) => policy.may_decide_attach(
                credentials,
                service_id,
                port_type,
                verdict,
            ),
            PolicyDispatch::Configured(policy) => policy.may_decide_attach(
                credentials,
                service_id,
                port_type,
                verdict,
            ),
        }
    }

    open spec fn may_decide_add_segment(
        &self,
        credentials: ProcessCredentials,
        service_id: Seq<char>,
        requested_size: usize,
        verdict: Verdict,
    ) -> bool {
        match self {
            PolicyDispatch::Default(policy) => policy.may_decide_add_segment(
                credentials,
                service_id,
                requested_size,
                verdict,
            ),
            PolicyDispatch::Configured(policy) => policy.may_decide_add_segment(
                credentials,
                service_id,
                requested_size,
                verdict,
            ),
        }
    }

    open spec fn may_limit(
        &self,
        credentials: ProcessCredentials,
        limits: ResourceLimits,
    ) -> bool {
        match self {
            PolicyDispatch::Default(policy) => policy.may_limit(credentials, limits),
            PolicyDispatch::Configured(policy) => policy.may_limit(credentials, limits),
        }
    }

    open spec fn may_bound(&self, credentials: ProcessCredentials, bounds: QosBounds) -> bool {
        match self {
            PolicyDispatch::Default(policy) => policy.may_bound(credentials, bounds),
            PolicyDispatch::Configured(policy) => policy.may_bound(credentials, bounds),
        }
    }

    fn authorize_create(
        &self,
        credentials: &ProcessCredentials,
        service_name: &ServiceName,
        messaging_pattern: MessagingPatternKind,
    ) -> (decision: PolicyDecision) {
        match self {
            PolicyDispatch::Default(policy) => {
                policy.authorize_create(credentials, service_name, messaging_pattern)
            },
            PolicyDispatch::Configured(policy) => {
                policy.authorize_create(credentials, service_name, messaging_pattern)
            },
        }
    }

    fn authorize_attach(
        &self,
        credentials: &ProcessCredentials,
        service_id: &ServiceId,
        port_type: PortType,
    ) -> (decision: PolicyDecision) {
        match self {
            PolicyDispatch::Default(policy) => {
                policy.authorize_attach(credentials, service_id, port_type)
            },
            PolicyDispatch::Configured(policy) => {
                policy.authorize_attach(credentials, service_id, port_type)
            },
        }
    }

    fn authorize_add_segment(
        &self,
        credentials: &ProcessCredentials,
        service_id: &ServiceId,
        requested_size: usize,
    ) -> (decision: PolicyDecision) {
        match self {
            PolicyDispatch::Default(policy) => {
                policy.authorize_add_segment(credentials, service_id, requested_size)
            },
            PolicyDispatch::Configured(policy) => {
                policy.authorize_add_segment(credentials, service_id, requested_size)
            },
        }
    }

    fn get_limits(&self, credentials: &ProcessCredentials) -> (limits: ResourceLimits) {
        match self {
            PolicyDispatch::Default(policy) => policy.get_limits(credentials),
            PolicyDispatch::Configured(policy) => policy.get_limits(credentials),
        }
    }

    fn authorize_connect(&self, credentials: &ProcessCredentials) -> (decision: PolicyDecision) {
        match self {
            PolicyDispatch::Default(policy) => policy.authorize_connect(credentials),
            PolicyDispatch::Configured(policy) => policy.authorize_connect(credentials),
        }
    }

    fn get_qos_bounds(&self, credentials: &ProcessCredentials) -> (bounds: QosBounds) {
        match self {
            PolicyDispatch::Default(policy) => policy.get_qos_bounds(credentials),
            PolicyDispatch::Configured(policy) => policy.get_qos_bounds(credentials),
        }
    }
}

/// Makes policies out of policy files.
#[derive(Debug, Clone, Copy)]
pub struct PolicyLoader;

/// The character that stands in a file name for one of a service name.
pub open spec fn sanitized(c: char) -> char {
    if text::is_letter_or_number(c) || c == '-' || c == '_' {
        c
    } else {
        '_'
    }
}

/// Sanitizes a service name for use as a filename: slashes, dots and what else is no letter,
/// number, dash or underscore become underscores.
pub fn sanitize_service_name(name: &str) -> (file_name: String)
    ensures
        file_name@ == name@.map_values(|c: char| sanitized(c)),
{
    let chars = chars_of(name);
    let mut file_name = String::new();
    let mut i: usize = 0;
    while i < chars.len()
        invariant
            i <= chars@.len(),
            chars@ == name@,
            file_name@ == name@.take(i as int).map_values(|c: char| sanitized(c)),
        decreases chars@.len() - i,
    {
        let c: char = chars[i];
        if c.is_alphanumeric() || c == '-' || c == '_' {
            file_name.push(c);
        } else {
            file_name.push('_');
        }
        assert(name@.take(i + 1).map_values(|c: char| sanitized(c)) =~= name@.take(
            i as int,
        ).map_values(|c: char| sanitized(c)).push(sanitized(c)));
        i += 1;
    }
    assert(name@.take(i as int) =~= name@);
    file_name
}

impl PolicyLoader {
    /// Returns the name of the policy file of a service.
    pub fn file_name(service_name: &ServiceName) -> (file_name: String)
        ensures
            file_name@ == service_name@.map_values(|c: char| sanitized(c)) + ".toml"@,
    {
        let mut file_name = sanitize_service_name(service_name.as_str());
        file_name.append(".toml");
        file_name
    }

    /// Makes the policy of a service out of a policy file that was read and parsed.
    ///
    /// A file for another service, and limits that are not valid, are a
    /// [`PolicyLoadError::ValidationError`]. Returns `None` where the segment size is too large
    /// to be held.
    pub fn policy_from(
        policy_file: PolicyFile,
        service_name: &ServiceName,
        owner_uid: u32,
    ) -> (loaded: Option<Result<ConfiguredPolicy, PolicyLoadError>>)
        ensures
            if policy_file.service.name@ != service_name@ {
                loaded matches Some(Err(PolicyLoadError::ValidationError(detail))) && detail@
                    == "The policy file is for another service"@
            } else {
                match loaded {
                    None => policy_file.limits matches Some(limits) && !fits(
                        configured_size(limits),
                    ),
                    Some(Ok(policy)) => policy == policy_of(policy_file, owner_uid) && (
                    policy_file.limits matches Some(limits) ==> fits(configured_size(limits)) && 0
                        < configured_limits(limits).max_segment_size
                        <= policy::MAX_REASONABLE_SEGMENT_SIZE),
                    Some(Err(error)) => {
                        &&& policy_file.limits matches Some(limits)
                        &&& fits(configured_size(limits))
                        &&& !(0 < configured_limits(limits).max_segment_size
                            <= policy::MAX_REASONABLE_SEGMENT_SIZE)
                        &&& error matches PolicyLoadError::ValidationError(detail)
                        &&& detail@ == "Resource limits are invalid (check max_segment_size)"@
                    },
                }
            },
    {
        if policy_file.service.name != service_name.text {
            return Some(
                Err(
                    PolicyLoadError::ValidationError(
                        "The policy file is for another service".to_owned(),
                    ),
                ),
            );
        }
        if let Some(limits) = &policy_file.limits {
            if !limits.size_fits() {
                return None;
            }
            if !limits.to_resource_limits().is_valid() {
                return Some(
                    Err(
                        PolicyLoadError::ValidationError(
                            "Resource limits are invalid (check max_segment_size)".to_owned(),
                        ),
                    ),
                );
            }
        }
        Some(Ok(ConfiguredPolicy::from_policy_file(policy_file, owner_uid)))
    }
}

/// A process that a deny rule matches is denied everything, whatever else is allowed to it.
pub proof fn law_deny_rules_come_first(
    policy: ConfiguredPolicy,
    credentials: ProcessCredentials,
    i: int,
    port_type: PortType,
    requested_size: usize,
)
    requires
        0 <= i < policy.deny_rules@.len(),
        principal_matches(policy.deny_rules@[i].principal, credentials),
    ensures
        policy.unless_denied(credentials, Verdict::Allow) is Deny,
        policy.create_verdict(credentials) is Deny,
        policy.attach_verdict(credentials, port_type) is Deny,
        policy.segment_verdict(credentials, requested_size) is Deny,
{
    lemma_denial_found(policy.deny_rules@, credentials, 0, i);
}

proof fn lemma_denial_found(
    rules: Seq<DenyRule>,
    credentials: ProcessCredentials,
    from: int,
    i: int,
)
    requires
        0 <= from <= i < rules.len(),
        principal_matches(rules[i].principal, credentials),
    ensures
        denial_from(rules, credentials, from) is Some,
    decreases i - from,
{
    if !principal_matches(rules[from].principal, credentials) {
        lemma_denial_found(rules, credentials, from + 1, i);
    }
}

/// A process that no allow rule matches may create no service, attach no port and add no
/// segment.
pub proof fn law_denied_by_default(
    policy: ConfiguredPolicy,
    credentials: ProcessCredentials,
    port_type: PortType,
    requested_size: usize,
)
    requires
        !allowed(policy.allow_rules@, credentials),
    ensures
        policy.create_verdict(credentials) is Deny,
        policy.attach_verdict(credentials, port_type) is Deny,
        policy.segment_verdict(credentials, requested_size) is Deny,
{
}

/// A process may attach a port only of a type whose role an allow rule for it grants.
pub proof fn law_attaching_needs_the_role(
    policy: ConfiguredPolicy,
    credentials: ProcessCredentials,
    port_type: PortType,
)
    requires
        policy.attach_verdict(credentials, port_type) is Allow,
    ensures
        exists|i: int|
            0 <= i < policy.allow_rules@.len() && principal_matches(
                (#[trigger] policy.allow_rules@[i]).principal,
                credentials,
            ) && grants(policy.allow_rules@[i], role_of(port_type)),
{
}

/// Both ways to write a range of users mean the same.
pub proof fn law_range_forms_agree(credentials: ProcessCredentials, uid_range: [u32; 2])
    ensures
        principal_matches(PrincipalMatcher::UidRangeArray { uid_range }, credentials)
            == principal_matches(
            PrincipalMatcher::UidRange { min: uid_range@[0], max: uid_range@[1] },
            credentials,
        ),
{
}

/// A sanitized name has one character for each of the service name, which is kept if it is a
/// letter, number, dash or underscore; so no slash and no dot stands in it, and sanitizing it again
/// changes nothing.
pub proof fn law_sanitizing_is_stable(name: Seq<char>, i: int)
    requires
        0 <= i < name.len(),
    ensures
        ({
            let once = name.map_values(|c: char| sanitized(c));
            &&& once.len() == name.len()
            &&& once[i] == name[i] || once[i] == '_'
            &&& text::is_letter_or_number(once[i]) || once[i] == '-' || once[i] == '_'
            &&& !once.contains('/')
            &&& !once.contains('.')
            &&& once.map_values(|c: char| sanitized(c)) == once
        }),
{
    let once = name.map_values(|c: char| sanitized(c));
    assert(once.map_values(|c: char| sanitized(c)) =~= once);
}

/// White space around a size does not matter.
pub proof fn law_space_around_sizes_is_ignored(s: Seq<char>)
    ensures
        size_in(text::trimmed(s)) == size_in(s),
{
    text::law_trimming_again_changes_nothing(s);
}

/// The letter case of a unit does not matter: texts that are the same in capital letters, and
/// have a unit, stand for the same size.
pub proof fn law_letter_case_of_units_is_ignored(s: Seq<char>, t: Seq<char>)
    requires
        text::trimmed(s).len() > 0,
        text::trimmed(t).len() > 0,
        text::uppercase_of(text::trimmed(s)) == text::uppercase_of(text::trimmed(t)),
        has_unit(text::uppercase_of(text::trimmed(s))),
    ensures
        size_in(s) == size_in(t),
{
}

/// The letter case of a size does not matter: texts of ASCII characters and white space that differ
/// only in the case of letters stand for the same size, if for any. So a text stands for what it
/// stands for in capital letters, and in small ones.
pub proof fn law_letter_case_of_sizes_is_ignored(s: Seq<char>, t: Seq<char>)
    requires
        text::is_plain(s),
        text::is_plain(t),
        text::capitalized(s) == text::capitalized(t),
    ensures
        size_in(s) == size_in(t),
        size_in(text::capitalized(s)) == size_in(s),
        size_in(text::made_small(s)) == size_in(s),
{
    text::law_capitals_forget_letter_case(s);
    lemma_same_size_in_capitals(s, t);
    lemma_same_size_in_capitals(text::capitalized(s), s);
    lemma_same_size_in_capitals(text::made_small(s), s);
}

proof fn lemma_same_size_in_capitals(s: Seq<char>, t: Seq<char>)
    requires
        text::is_plain(s),
        text::is_plain(t),
        text::capitalized(s) == text::capitalized(t),
    ensures
        size_in(s) == size_in(t),
{
    text::law_capitalizing_commutes_with_trimming(s);
    text::law_capitalizing_commutes_with_trimming(t);
    let one = text::trimmed(s);
    let other = text::trimmed(t);
    assert(text::capitalized(one).len() == one.len());
    assert(text::capitalized(other).len() == other.len());
    text::lemma_numbers_have_no_case(one, other);
}

/// A number with a unit stands for so many of the unit, and a plain number for so many bytes,
/// whatever white space stands around the text and before the unit, and in whatever letter case
/// the unit is written.
///
/// `digits` is the number, `space` what stands between it and the unit, and `written` the unit as
/// it is written.
pub proof fn law_sizes_are_by_unit(
    s: Seq<char>,
    digits: Seq<char>,
    space: Seq<char>,
    unit: SizeUnit,
    written: Seq<char>,
)
    requires
        text::all_digits(digits),
        text::value_of(digits) <= usize::MAX,
        forall|i: int| 0 <= i < space.len() ==> text::is_white_space(#[trigger] space[i]),
        text::capitalized(written) == seq![unit.letter(), 'B'],
    ensures
        text::trimmed(s) == digits + space + written ==> size_in(s) == Some(
            text::value_of(digits) * unit.bytes(),
        ),
        text::trimmed(s) == digits ==> size_in(s) == Some(text::value_of(digits)),
{
    text::lemma_digits_have_value(digits);
    assert forall|i: int| 0 <= i < digits.len() implies text::capital(#[trigger] digits[i])
        == digits[i] && text::is_ascii(digits[i]) && !text::is_white_space(digits[i]) && digits[i]
        != '+' by {
        assert(text::is_digit(digits[i]));
    }
    assert(text::capitalized(digits) =~= digits);
    assert(text::is_digit(digits[digits.len() - 1]));
    if text::trimmed(s) == digits + space + written {
        let plain = text::trimmed(s);
        let upper = text::capitalized(plain);
        let capitals = text::capitalized(written);
        assert(written.len() == capitals.len());
        assert(capitals =~= seq![unit.letter(), 'B']);
        assert(capitals[0] == text::capital(written[0]));
        assert(capitals[1] == text::capital(written[1]));
        assert forall|i: int| 0 <= i < plain.len() implies text::is_ascii(#[trigger] plain[i])
            || text::is_white_space(plain[i]) by {
            if i < digits.len() {
                assert(plain[i] == digits[i]);
            } else if i < digits.len() + space.len() {
                assert(plain[i] == space[i - digits.len()]);
            } else {
                assert(plain[i] == written[i - digits.len() - space.len()]);
            }
        }
        assert(upper =~= digits + space + seq![unit.letter(), 'B']) by {
            assert forall|i: int| 0 <= i < space.len() implies text::capital(#[trigger] space[i])
                == space[i] by {
                assert(text::is_white_space(space[i]));
            }
        }
        let front = upper.take(upper.len() - 2);
        assert(front =~= digits + space);
        text::lemma_trim_end_of_space(digits, space);
        assert((digits + space)[0] == digits[0]);
        assert(text::trim_start(digits + space) == digits + space);
        assert(text::trimmed(front) == digits);
    }
    if text::trimmed(s) == digits {
        assert(text::is_plain(digits));
    }
}

/// A principal is the process of one user, of one group, of the users between two, both among them,
/// or any process.
pub proof fn law_principals_are_matched(
    credentials: ProcessCredentials,
    number: u32,
    uid_range: [u32; 2],
    min: u32,
    max: u32,
    marker: AnyMarker,
)
    ensures
        principal_matches(PrincipalMatcher::Uid { uid: number }, credentials) <==> number
            == credentials.uid,
        principal_matches(PrincipalMatcher::Gid { gid: number }, credentials) <==> number
            == credentials.gid,
        principal_matches(PrincipalMatcher::UidRange { min, max }, credentials) <==> min
            <= credentials.uid && credentials.uid <= max,
        principal_matches(PrincipalMatcher::UidRangeArray { uid_range }, credentials)
            <==> uid_range@[0] <= credentials.uid && credentials.uid <= uid_range@[1],
        principal_matches(PrincipalMatcher::Any(marker), credentials),
{
}

/// Whether a deny rule is about a process.
pub open spec fn is_denied(policy: ConfiguredPolicy, credentials: ProcessCredentials) -> bool {
    exists|i: int|
        0 <= i < policy.deny_rules@.len() && principal_matches(
            (#[trigger] policy.deny_rules@[i]).principal,
            credentials,
        )
}

proof fn lemma_denial_is_by_a_rule(
    rules: Seq<DenyRule>,
    credentials: ProcessCredentials,
    from: int,
)
    requires
        0 <= from,
    ensures
        denial_from(rules, credentials, from) is Some <==> exists|i: int|
            from <= i < rules.len() && principal_matches(
                (#[trigger] rules[i]).principal,
                credentials,
            ),
    decreases rules.len() - from,
{
    if from < rules.len() {
        lemma_denial_is_by_a_rule(rules, credentials, from + 1);
        if principal_matches(rules[from].principal, credentials) {
            assert(from <= from < rules.len());
        }
    }
}

proof fn lemma_denial_is_by_the_first(
    rules: Seq<DenyRule>,
    credentials: ProcessCredentials,
    from: int,
    i: int,
)
    requires
        0 <= from <= i < rules.len(),
        principal_matches(rules[i].principal, credentials),
        forall|j: int|
            from <= j < i ==> !principal_matches((#[trigger] rules[j]).principal, credentials),
    ensures
        denial_from(rules, credentials, from) == Some(
            match rules[i].reason {
                Some(reason) => reason@,
                None => "Denied by policy rule"@,
            },
        ),
    decreases i - from,
{
    if from < i {
        assert(!principal_matches(rules[from].principal, credentials));
        lemma_denial_is_by_the_first(rules, credentials, from + 1, i);
    }
}

/// A process that deny rules are about is denied whatever it asks for, in the words of the first
/// such rule, or as denied by a rule where that gives none.
pub proof fn law_denials_are_those_of_the_first_rule(
    policy: ConfiguredPolicy,
    credentials: ProcessCredentials,
    i: int,
    text: Seq<char>,
    messaging_pattern: MessagingPatternKind,
    port_type: PortType,
    requested_size: usize,
    verdict: Verdict,
)
    requires
        0 <= i < policy.deny_rules@.len(),
        principal_matches(policy.deny_rules@[i].principal, credentials),
        forall|j: int|
            0 <= j < i ==> !principal_matches(
                (#[trigger] policy.deny_rules@[j]).principal,
                credentials,
            ),
        policy.may_decide_connect(credentials, verdict) || policy.may_decide_create(
            credentials,
            text,
            messaging_pattern,
            verdict,
        ) || policy.may_decide_attach(credentials, text, port_type, verdict)
            || policy.may_decide_add_segment(credentials, text, requested_size, verdict),
    ensures
        verdict == (Verdict::Deny {
            reason: DenialReason::PolicyViolation,
            message: match policy.deny_rules@[i].reason {
                Some(reason) => reason@,
                None => "Denied by policy rule"@,
            },
        }),
{
    lemma_denial_is_by_the_first(policy.deny_rules@, credentials, 0, i);
}

/// Whether a rule names a role.
pub open spec fn names_role(rule: AllowRule, role: Seq<char>) -> bool {
    exists|i: int| 0 <= i < rule.roles@.len() && (#[trigger] rule.roles@[i])@ == role
}

/// The role of a port type in a policy file.
pub open spec fn needed_role(port_type: PortType) -> Seq<char> {
    match port_type {
        PortType::Publisher => "publisher"@,
        PortType::Subscriber => "subscriber"@,
        PortType::Server => "server"@,
        PortType::Client => "client"@,
    }
}

/// A process may attach a port exactly if no deny rule is about it, and some allow rule, wherever it
/// stands, is about it and names the role of the port: "publisher", "subscriber", "server" or
/// "client". Otherwise it is told which role it lacks.
pub proof fn law_ports_are_allowed_by_role(
    policy: ConfiguredPolicy,
    credentials: ProcessCredentials,
    service: Seq<char>,
    port_type: PortType,
    verdict: Verdict,
    i: int,
)
    requires
        policy.may_decide_attach(credentials, service, port_type, verdict),
    ensures
        ({
            let allowed = exists|i: int|
                0 <= i < policy.allow_rules@.len() && principal_matches(
                    (#[trigger] policy.allow_rules@[i]).principal,
                    credentials,
                ) && names_role(policy.allow_rules@[i], needed_role(port_type));
            &&& !is_denied(policy, credentials) && 0 <= i < policy.allow_rules@.len()
                && principal_matches(policy.allow_rules@[i].principal, credentials) && names_role(
                policy.allow_rules@[i],
                needed_role(port_type),
            ) ==> verdict is Allow
            &&& verdict is Allow <==> !is_denied(policy, credentials) && allowed
            &&& !is_denied(policy, credentials) && !allowed ==> verdict == (Verdict::Deny {
                reason: DenialReason::Unauthorized,
                message: "No allow rule grants '"@ + needed_role(port_type)
                    + "' role for this principal"@,
            })
        }),
{
    lemma_denial_is_by_a_rule(policy.deny_rules@, credentials, 0);
    assert forall|rule: AllowRule, role: Seq<char>| #[trigger] names_role(rule, role) == grants(
        rule,
        role,
    ) by {}
    assert(role_of(port_type) == needed_role(port_type));
    assert forall|k: int| 0 <= k < policy.allow_rules@.len() implies names_role(
        #[trigger] policy.allow_rules@[k],
        needed_role(port_type),
    ) == grants(policy.allow_rules@[k], role_of(port_type)) by {}
}

/// A process may connect exactly if no deny rule is about it. It may create a service exactly if, of
/// those that may connect, some allow rule is about it; and it may add a segment exactly if, of
/// those that may create one, it belongs to the owner, and the segment is neither empty nor larger
/// than the limit.
pub proof fn law_rules_decide(
    policy: ConfiguredPolicy,
    credentials: ProcessCredentials,
    text: Seq<char>,
    messaging_pattern: MessagingPatternKind,
    requested_size: usize,
    verdict: Verdict,
)
    ensures
        ({
            let denied = is_denied(policy, credentials);
            let allowed = exists|i: int|
                0 <= i < policy.allow_rules@.len() && principal_matches(
                    (#[trigger] policy.allow_rules@[i]).principal,
                    credentials,
                );
            &&& policy.may_decide_connect(credentials, verdict) ==> (verdict is Allow <==> !denied)
            &&& policy.may_decide_create(credentials, text, messaging_pattern, verdict) ==> {
                &&& verdict is Allow <==> !denied && allowed
                &&& !denied && !allowed ==> verdict == (Verdict::Deny {
                    reason: DenialReason::Unauthorized,
                    message: "No matching allow rule for service creation"@,
                })
            }
            &&& policy.may_decide_add_segment(credentials, text, requested_size, verdict) ==> {
                &&& verdict is Allow <==> !denied && allowed && credentials.uid == policy.owner_uid
                    && 0 < requested_size && requested_size <= policy.limits.max_segment_size
                &&& !denied && credentials.uid != policy.owner_uid ==> verdict == (Verdict::Deny {
                    reason: DenialReason::Unauthorized,
                    message: "Only the service owner can add segments"@,
                })
                &&& !denied && credentials.uid == policy.owner_uid && !allowed ==> verdict == (
                Verdict::Deny {
                    reason: DenialReason::Unauthorized,
                    message: "No matching allow rule for segment creation"@,
                })
                &&& !denied && credentials.uid == policy.owner_uid && allowed && requested_size == 0
                    ==> verdict == (Verdict::Deny {
                    reason: DenialReason::PolicyViolation,
                    message: "Zero-size segment requests are not allowed"@,
                })
                &&& !denied && credentials.uid == policy.owner_uid && allowed && requested_size
                    > policy.limits.max_segment_size && requested_size > 0 ==> verdict == (
                Verdict::Deny {
                    reason: DenialReason::ResourceLimitExceeded,
                    message: "Requested segment size exceeds maximum allowed"@,
                })
            }
        }),
{
    lemma_denial_is_by_a_rule(policy.deny_rules@, credentials, 0);
}

/// A configured policy sets every process its own limits and bounds.
pub proof fn law_configured_limits_are_set(
    policy: ConfiguredPolicy,
    credentials: ProcessCredentials,
    limits: ResourceLimits,
    bounds: QosBounds,
)
    ensures
        policy.may_limit(credentials, limits) <==> limits == policy.limits,
        policy.may_bound(credentials, bounds) <==> bounds == policy.qos_bounds,
{
}

/// Either policy decides as it does by itself.
pub proof fn law_dispatch_changes_nothing(
    one: DefaultPolicy,
    other: ConfiguredPolicy,
    credentials: ProcessCredentials,
    text: Seq<char>,
    messaging_pattern: MessagingPatternKind,
    port_type: PortType,
    requested_size: usize,
    verdict: Verdict,
    limits: ResourceLimits,
    bounds: QosBounds,
)
    ensures
        PolicyDispatch::Default(one).may_decide_connect(credentials, verdict)
            == one.may_decide_connect(credentials, verdict),
        PolicyDispatch::Default(one).may_decide_create(credentials, text, messaging_pattern, verdict)
            == one.may_decide_create(credentials, text, messaging_pattern, verdict),
        PolicyDispatch::Default(one).may_decide_attach(credentials, text, port_type, verdict)
            == one.may_decide_attach(credentials, text, port_type, verdict),
        PolicyDispatch::Default(one).may_decide_add_segment(
            credentials,
            text,
            requested_size,
            verdict,
        ) == one.may_decide_add_segment(credentials, text, requested_size, verdict),
        PolicyDispatch::Default(one).may_limit(credentials, limits) == one.may_limit(
            credentials,
            limits,
        ),
        PolicyDispatch::Default(one).may_bound(credentials, bounds) == one.may_bound(
            credentials,
            bounds,
        ),
        PolicyDispatch::Configured(other).may_decide_connect(credentials, verdict)
            == other.may_decide_connect(credentials, verdict),
        PolicyDispatch::Configured(other).may_decide_create(
            credentials,
            text,
            messaging_pattern,
            verdict,
        ) == other.may_decide_create(credentials, text, messaging_pattern, verdict),
        PolicyDispatch::Configured(other).may_decide_attach(credentials, text, port_type, verdict)
            == other.may_decide_attach(credentials, text, port_type, verdict),
        PolicyDispatch::Configured(other).may_decide_add_segment(
            credentials,
            text,
            requested_size,
            verdict,
        ) == other.may_decide_add_segment(credentials, text, requested_size, verdict),
        PolicyDispatch::Configured(other).may_limit(credentials, limits) == other.may_limit(
            credentials,
            limits,
        ),
        PolicyDispatch::Configured(other).may_bound(credentials, bounds) == other.may_bound(
            credentials,
            bounds,
        ),
{
}

/// A policy file gives a policy its rules in their order, its bounds, and each limit that it sets;
/// for what it does not set, and for a size that is none, the default holds: 16 publishers and
/// servers, 256 subscribers and clients, 64 segments of 64 MB.
pub proof fn law_policies_are_as_their_files(
    policy_file: PolicyFile,
    owner_uid: u32,
    limits: PolicyLimits,
    qos: PolicyQos,
)
    ensures
        ({
            let policy = policy_of(policy_file, owner_uid);
            &&& policy.owner_uid == owner_uid
            &&& policy.allow_rules == policy_file.allow
            &&& policy.deny_rules == policy_file.deny
            &&& policy_file.limits is None ==> policy.limits == (ResourceLimits {
                max_publishers: 16,
                max_subscribers: 256,
                max_servers: 16,
                max_clients: 256,
                max_segments: 64,
                max_segment_size: 67108864,
            })
            &&& policy_file.limits == Some(limits) ==> {
                &&& policy.limits.max_publishers == (match limits.max_publishers {
                    Some(n) => n,
                    None => 16,
                })
                &&& policy.limits.max_subscribers == (match limits.max_subscribers {
                    Some(n) => n,
                    None => 256,
                })
                &&& policy.limits.max_servers == (match limits.max_servers {
                    Some(n) => n,
                    None => 16,
                })
                &&& policy.limits.max_clients == (match limits.max_clients {
                    Some(n) => n,
                    None => 256,
                })
                &&& policy.limits.max_segments == (match limits.max_segments {
                    Some(n) => n,
                    None => 64,
                })
                &&& limits.max_segment_size is None ==> policy.limits.max_segment_size == 67108864
                &&& limits.max_segment_size matches Some(s) ==> match size_in(s@) {
                    Some(n) => 0 <= n <= usize::MAX ==> policy.limits.max_segment_size == n,
                    None => policy.limits.max_segment_size == 67108864,
                }
            }
            &&& policy_file.qos is None ==> policy.qos_bounds.max_buffer_size is None
                && policy.qos_bounds.max_history is None
            &&& policy_file.qos == Some(qos) ==> policy.qos_bounds.max_buffer_size
                == qos.max_buffer_size && policy.qos_bounds.max_history == qos.max_history
        }),
{
}

/// A size is a number and a unit, or a number, and nothing else: what is neither empty nor, but for a
/// unit and white space, one or more digits, with or without a plus sign before them, is no size.
pub proof fn law_only_sizes_are_sizes(s: Seq<char>, i: int)
    requires
        text::is_plain(s),
        ({
            let t = text::trimmed(s);
            ||| t.len() == 0
            ||| t.len() >= 1 && 0 <= i < t.len() - 2 && !('0' <= t[i] && t[i] <= '9') && !(i == 0
                && t[i] == '+') && !text::is_white_space(t[i])
        }),
    ensures
        size_in(s) is None,
{
    let t = text::trimmed(s);
    text::law_capitalizing_commutes_with_trimming(s);
    if t.len() > 0 {
        let upper = text::capitalized(t);
        assert(upper.len() == t.len());
        assert(upper[i] == text::capital(t[i]));
        let front = upper.take(upper.len() - 2);
        assert(front[i] == upper[i]);
        let space = text::law_only_space_is_trimmed(s);
        assert(front[0] == text::capital(t[0]));
        lemma_no_number(t, i);
        lemma_no_number_trimmed(front, i);
    }
}

proof fn lemma_no_number(t: Seq<char>, i: int)
    requires
        0 <= i < t.len(),
        !('0' <= t[i] && t[i] <= '9'),
        !(i == 0 && t[i] == '+'),
    ensures
        text::number_in(t) is None,
{
    let rest = text::unsigned(t);
    if text::all_digits(rest) {
        if t[0] == '+' {
            assert(rest[i - 1] == t[i]);
            assert(text::is_digit(rest[i - 1]));
        } else {
            assert(rest == t);
            assert(text::is_digit(rest[i]));
        }
    }
}

proof fn lemma_no_number_trimmed(t: Seq<char>, i: int)
    requires
        0 <= i < t.len(),
        !('0' <= t[i] && t[i] <= '9'),
        !(i == 0 && t[i] == '+'),
        !text::is_white_space(t[i]),
        t.len() > 0,
        !text::is_white_space(t[0]),
    ensures
        text::number_in(text::trimmed(t)) is None,
{
    assert(text::trim_start(t) == t);
    text::lemma_trimmed_end_keeps(t, i);
    lemma_no_number(text::trim_end(t), i);
}

/// The units are powers of 1024, and are told by their letters.
pub proof fn law_units_are_powers()
    ensures
        SizeUnit::Kilobyte.bytes() == 1024,
        SizeUnit::Megabyte.bytes() == 1048576,
        SizeUnit::Gigabyte.bytes() == 1073741824,
        SizeUnit::Kilobyte.letter() == 'K',
        SizeUnit::Megabyte.letter() == 'M',
        SizeUnit::Gigabyte.letter() == 'G',
{
}

/// A size can be held if it is no larger than the largest number, and is then held as it is.
pub proof fn law_sizes_are_held(bytes: int)
    ensures
        fits(Some(bytes)) <==> bytes <= usize::MAX,
        fits(None),
        0 <= bytes <= usize::MAX ==> held(Some(bytes)) == Some(bytes as usize),
        held(None) is None,
{
}

/// Of a service name, letters, digits, dashes and underscores stay in the file name, and so do
/// letters and numbers beyond ASCII; every other character becomes an underscore.
pub proof fn law_names_are_sanitized(c: char)
    ensures
        c <= '\u{7f}' ==> sanitized(c) == (if ('a' <= c && c <= 'z') || ('A' <= c && c <= 'Z') || (
        '0' <= c && c <= '9') || c == '-' {
            c
        } else {
            '_'
        }),
        c > '\u{7f}' ==> sanitized(c) == (if text::unicode_letter_or_number(c) {
            c
        } else {
            '_'
        }),
{
}

/// What could not be loaded is told by its kind and, where there is any, its detail.
pub proof fn law_load_errors_are_told(error: PolicyLoadError)
    ensures
        match error {
            PolicyLoadError::NotFound => error.text() == "Policy file not found"@,
            PolicyLoadError::IoError(detail) => error.text() == "I/O error reading policy file: "@
                + detail@,
            PolicyLoadError::ParseError(detail) => error.text() == "TOML parse error: "@ + detail@,
            PolicyLoadError::ValidationError(detail) => error.text() == "Policy validation error: "@
                + detail@,
        },
{
}

} // verus!
