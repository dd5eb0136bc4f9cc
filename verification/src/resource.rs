//! Service resources: what a service leaves behind, and has to be cleaned up.

use vstd::prelude::*;

verus! {

/// Why the stale resources of a service could not be removed.
#[derive(Debug, Clone, Copy, PartialEq, Eq, Structural)]
pub enum RemoveStaleResourcesError {
    /// The process lacks a permission.
    InsufficientPermissions,
    /// A signal interrupted the removal.
    InterruptedBySignal,
    /// An internal failure.
    InternalFailure,
}

/// The messaging patterns of services.
#[derive(Debug, Clone, Copy, PartialEq, Eq, Structural)]
pub enum MessagingPattern {
    /// Services that share a key-value store.
    Blackboard,
    /// Services with requests and responses.
    RequestResponse,
    /// Services that notify.
    Event,
    /// Services with publishers and subscribers.
    PublishSubscribe,
}

/// The resource of services that have none.
#[derive(Debug, Clone, Copy, PartialEq, Eq, Structural)]
pub struct NoResource;

/// The resources that a service leaves behind.
#[derive(Debug, Clone, Copy, PartialEq, Eq, Structural)]
pub enum StaleResources {
    /// None.
    Nothing,
    /// Those of a blackboard service.
    Blackboard,
    /// Those of a publish-subscribe service.
    PublishSubscribe,
}

/// Returns which resources a service of a messaging pattern leaves behind: only blackboard and
/// publish-subscribe services do.
pub fn stale_resources_of(messaging_pattern: MessagingPattern) -> (stale: StaleResources)
    ensures
        stale == (match messaging_pattern {
            MessagingPattern::Blackboard => StaleResources::Blackboard,
            MessagingPattern::PublishSubscribe => StaleResources::PublishSubscribe,
            MessagingPattern::RequestResponse => StaleResources::Nothing,
            MessagingPattern::Event => StaleResources::Nothing,
        }),
{
    match messaging_pattern {
        MessagingPattern::Blackboard => StaleResources::Blackboard,
        MessagingPattern::RequestResponse => StaleResources::Nothing,
        MessagingPattern::Event => StaleResources::Nothing,
        MessagingPattern::PublishSubscribe => StaleResources::PublishSubscribe,
    }
}

} // verus!
