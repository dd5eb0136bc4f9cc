//! Secured services: what makes a service secured, how its server is found, and what its ports
//! ask of the server.

use vstd::prelude::*;
use crate::client;
use crate::client::{ClientControlChannelConnection, IamClient};
use crate::configured_policy::{ConfiguredPolicy, PolicyDispatch, PolicyLoadError};
use crate::error::IamClientError;
use crate::policy::{DefaultPolicy, ResourceLimits};
use crate::protocol::{IamNotification, IamRequest, SegmentInfo, SessionId};
use crate::types::{ProcessCredentials, SegmentId, ServiceId};

verus! {

/// The longest file name, in bytes.
pub const MAX_FILE_NAME_LENGTH: usize = 255;

/// How much of a service identifier is in an endpoint name, in bytes.
pub const ENDPOINT_PREFIX_LENGTH: usize = 16;

/// The number of milliseconds between two attempts to connect to a server.
pub const CONNECT_INTERVAL: u64 = 2;

/// The part of a service identifier that is in an endpoint name.
pub open spec fn endpoint_prefix(service_id: Seq<u8>) -> Seq<u8> {
    if service_id.len() > ENDPOINT_PREFIX_LENGTH {
        service_id.take(ENDPOINT_PREFIX_LENGTH as int)
    } else {
        service_id
    }
}

/// The base, a marker and the first bytes of a service identifier.
pub open spec fn joined_name(service_id: Seq<u8>, base: Seq<u8>) -> Seq<u8> {
    base + vstd::utf8::encode_utf8("_iam_"@) + endpoint_prefix(service_id)
}

/// The endpoint of a service's server: the base, a marker and the first bytes of the service
/// identifier; where that can be no file name, those bytes alone.
pub open spec fn endpoint_name(service_id: Seq<u8>, base: Seq<u8>) -> Seq<u8> {
    if is_file_name(joined_name(service_id, base)) {
        joined_name(service_id, base)
    } else {
        endpoint_prefix(service_id)
    }
}

/// Whether a byte can stand in a file name: all but the zero byte and the slash can.
pub open spec fn in_file_name(byte: u8) -> bool {
    byte != 0 && byte != 47
}

/// Whether bytes can be a file name. Neither one dot nor two dots can.
pub open spec fn is_file_name(name: Seq<u8>) -> bool {
    &&& 0 < name.len() <= MAX_FILE_NAME_LENGTH
    &&& forall|i: int| 0 <= i < name.len() ==> in_file_name(#[trigger] name[i])
    &&& name != seq![46u8]
    &&& name != seq![46u8, 46u8]
}

/// Whether the part of a service identifier that is in an endpoint name ends with a character.
pub open spec fn has_endpoint_prefix(service_id: Seq<u8>) -> bool {
    service_id.len() > ENDPOINT_PREFIX_LENGTH ==> !vstd::utf8::is_continuation_byte(
        service_id[ENDPOINT_PREFIX_LENGTH as int],
    )
}

/// Whether a service has an endpoint with a base: it is a file name, and no character of the
/// service identifier is cut. That is so wherever the first bytes of the service identifier are a
/// file name.
pub open spec fn has_endpoint(service_id: Seq<u8>, base: Seq<u8>) -> bool {
    has_endpoint_prefix(service_id) && is_file_name(endpoint_name(service_id, base))
}

/// Returns `true` if bytes can be a file name.
fn can_name_file(name: &[u8]) -> (named: bool)
    ensures
        named == is_file_name(name@),
{
    if name.len() == 0 || name.len() > MAX_FILE_NAME_LENGTH {
        return false;
    }
    if name[0] == 46 && (name.len() == 1 || (name.len() == 2 && name[1] == 46)) {
        assert(name@ =~= seq![46u8] || name@ =~= seq![46u8, 46u8]);
        return false;
    }
    let mut i: usize = 0;
    while i < name.len()
        invariant
            i <= name@.len(),
            forall|j: int| 0 <= j < i ==> in_file_name(#[trigger] name@[j]),
        decreases name@.len() - i,
    {
        if name[i] == 0 || name[i] == 47 {
            assert(!in_file_name(name@[i as int]));
            return false;
        }
        i += 1;
    }
    true
}

/// Puts an endpoint name together.
fn endpoint_of(id: &[u8], endpoint_base: &Vec<u8>) -> (name: Vec<u8>)
    ensures
        name@ == endpoint_name(id@, endpoint_base@),
{
    let length: usize = if id.len() > ENDPOINT_PREFIX_LENGTH {
        ENDPOINT_PREFIX_LENGTH
    } else {
        id.len()
    };
    let prefix = vstd::slice::slice_subrange(id, 0, length);
    assert(prefix@ =~= endpoint_prefix(id@));
    let mut name: Vec<u8> = Vec::new();
    name.extend_from_slice(endpoint_base.as_slice());
    name.extend_from_slice("_iam_".as_bytes());
    name.extend_from_slice(prefix);
    assert(name@ =~= joined_name(id@, endpoint_base@));
    if can_name_file(name.as_slice()) {
        name
    } else {
        let mut short: Vec<u8> = Vec::new();
        short.extend_from_slice(prefix);
        assert(short@ =~= prefix@);
        short
    }
}

/// Returns `true` if [`iam_endpoint_name`] has a name to give.
pub fn endpoint_exists(service_id: &ServiceId, endpoint_base: &Vec<u8>) -> (named: bool)
    ensures
        named == has_endpoint(vstd::utf8::encode_utf8(service_id@), endpoint_base@),
{
    let id = service_id.as_str().as_bytes();
    if id.len() > ENDPOINT_PREFIX_LENGTH {
        let next: u8 = id[ENDPOINT_PREFIX_LENGTH];
        if 128 <= next && next < 192 {
            assert(vstd::utf8::is_continuation_byte(next));
            return false;
        }
        assert(!vstd::utf8::is_continuation_byte(next));
    }
    can_name_file(endpoint_of(id, endpoint_base).as_slice())
}

/// Generates the control channel endpoint name for a service, `{base}_iam_{prefix}` with the
/// first 16 bytes of the service identifier. Where that can be no file name, because it is too
/// long or for what the base holds, the name is the prefix alone. The base is given in bytes, and
/// so is the name. A service whose prefix can be no file name either, or would cut a character,
/// has none, see [`endpoint_exists`].
pub fn iam_endpoint_name(service_id: &ServiceId, endpoint_base: &Vec<u8>) -> (name: Vec<u8>)
    requires
        has_endpoint(vstd::utf8::encode_utf8(service_id@), endpoint_base@),
    ensures
        name@ == endpoint_name(vstd::utf8::encode_utf8(service_id@), endpoint_base@),
{
    endpoint_of(service_id.as_str().as_bytes(), endpoint_base)
}

/// Chooses the policy of a service by what came of loading it: the one that was loaded, or the
/// default policy for the creator's user where there is none. Any other error is handed on.
pub fn select_policy(
    loaded: Result<ConfiguredPolicy, PolicyLoadError>,
    creator: &ProcessCredentials,
) -> (policy: Result<PolicyDispatch, PolicyLoadError>)
    ensures
        match loaded {
            Ok(configured) => policy == Ok::<PolicyDispatch, PolicyLoadError>(
                PolicyDispatch::Configured(configured),
            ),
            Err(PolicyLoadError::NotFound) => policy matches Ok(PolicyDispatch::Default(chosen))
                && chosen == (DefaultPolicy { owner_uid: creator.uid, limits: ResourceLimits::spec_default() }),
            Err(error) => policy == Err::<PolicyDispatch, _>(error),
        },
{
    match loaded {
        Ok(configured) => Ok(PolicyDispatch::Configured(configured)),
        Err(PolicyLoadError::NotFound) => Ok(PolicyDispatch::Default(DefaultPolicy::new(creator))),
        Err(error) => Err(error),
    }
}

/// Returns how many milliseconds to wait before a further attempt to connect, after one that
/// failed; there is none once the timeout has elapsed. Both times are in nanoseconds.
pub fn next_attempt(elapsed: u128, timeout: u128) -> (wait: Option<u64>)
    ensures
        wait == (if elapsed >= timeout {
            None
        } else {
            Some(CONNECT_INTERVAL)
        }),
{
    if elapsed >= timeout {
        None
    } else {
        Some(CONNECT_INTERVAL)
    }
}

/// What makes a service secured: nothing, a client `C`, or the server `S` with a client of its
/// own, by which the creator's ports are treated like all others.
#[derive(Debug)]
pub enum SecurityResource<S, C> {
    /// The service is public.
    Public,
    /// The service was opened.
    SecuredClient(C),
    /// The service was created.
    SecuredServer {
        /// The server.
        server: S,
        /// The creator's client.
        client: C,
    },
}

impl<S, C> SecurityResource<S, C> {
    /// Returns the client, if the service is secured.
    pub fn as_client(&self) -> (client: Option<&C>)
        ensures
            match *self {
                SecurityResource::Public => client is None,
                SecurityResource::SecuredClient(own) => client matches Some(given) && *given == own,
                SecurityResource::SecuredServer { client: own, .. } => client matches Some(given)
                    && *given == own,
            },
    {
        match self {
            SecurityResource::Public => None,
            SecurityResource::SecuredClient(client) => Some(client),
            SecurityResource::SecuredServer { client, .. } => Some(client),
        }
    }
}

/// A service resource with what makes the service secured.
#[derive(Debug)]
pub struct Secured<R, S, C> {
    /// The resource of the service.
    pub inner: R,
    /// What makes the service secured.
    pub security: SecurityResource<S, C>,
}

impl<R, S, C> Secured<R, S, C> {
    /// Wraps a resource without security (public service access).
    pub fn public(inner: R) -> (wrapped: Self)
        ensures
            wrapped.inner == inner,
            wrapped.security is Public,
    {
        Secured { inner, security: SecurityResource::Public }
    }

    /// Wraps a resource together with an established security context (secured service).
    pub fn new(inner: R, security: SecurityResource<S, C>) -> (wrapped: Self)
        ensures
            wrapped.inner == inner,
            wrapped.security == security,
    {
        Secured { inner, security }
    }

    /// Returns the client, if the service is secured.
    pub fn as_client(&self) -> (client: Option<&C>)
        ensures
            match self.security {
                SecurityResource::Public => client is None,
                SecurityResource::SecuredClient(own) => client matches Some(given) && *given == own,
                SecurityResource::SecuredServer { client: own, .. } => client matches Some(given)
                    && *given == own,
            },
    {
        self.security.as_client()
    }
}

/// Context for managing the operations of a secured service: a client, and the service that it
/// asks for.
#[derive(Debug)]
pub struct SecuredServiceContext<C> {
    client: IamClient<C>,
    service_id: ServiceId,
}

impl<C> SecuredServiceContext<C> {
    /// The client.
    pub closed spec fn iam_client(&self) -> IamClient<C> {
        self.client
    }

    /// The service.
    pub closed spec fn service(&self) -> ServiceId {
        self.service_id
    }

    /// Whether a context is another but for its client, which has kept its connection and its
    /// session.
    pub open spec fn continues(&self, before: &Self) -> bool {
        self.service() == before.service() && self.iam_client()@ == before.iam_client()@
            && self.iam_client().channel() == before.iam_client().channel()
    }

    /// Creates a new secured service context.
    #[must_use]
    pub fn new(client: IamClient<C>, service_id: ServiceId) -> (context: Self)
        ensures
            context.iam_client() == client,
            context.service() == service_id,
    {
        SecuredServiceContext { client, service_id }
    }

    /// Returns the session ID from the client.
    pub fn session_id(&self) -> (id: SessionId)
        ensures
            id == self.iam_client()@.session_id,
    {
        self.client.session_id()
    }

    /// Returns the service ID this context is associated with.
    pub fn service_id(&self) -> (id: &ServiceId)
        ensures
            *id == self.service(),
    {
        &self.service_id
    }

    /// Returns true if the client is active.
    pub fn is_active(&self) -> (active: bool)
        ensures
            active == (self.iam_client()@.state is Active),
    {
        self.client.is_active()
    }
}

impl<C: ClientControlChannelConnection> SecuredServiceContext<C> {
    /// Attaches as a publisher to the service.
    pub fn attach_publisher(&mut self, history_size: usize, max_slice_len: usize) -> (result: Result<
        (u128, Vec<SegmentInfo>, Vec<C::Handle>),
        IamClientError,
    >)
        ensures
            if old(self).iam_client()@.active() {
                client::may_attach(
                    old(self).iam_client().channel(),
                    IamRequest::AttachPublisher { service_id: old(self).service(), history_size, max_slice_len },
                    result,
                )
            } else {
                result == Err::<(u128, Vec<SegmentInfo>, Vec<C::Handle>), _>(
                    IamClientError::SessionInvalid,
                )
            },
            final(self).continues(old(self)),
    {
        self.client.attach_publisher(&self.service_id, history_size, max_slice_len)
    }

    /// Attaches as a subscriber to the service.
    pub fn attach_subscriber(&mut self, buffer_size: usize) -> (result: Result<
        (u128, Vec<SegmentInfo>, Vec<C::Handle>),
        IamClientError,
    >)
        ensures
            if old(self).iam_client()@.active() {
                client::may_attach(
                    old(self).iam_client().channel(),
                    IamRequest::AttachSubscriber { service_id: old(self).service(), buffer_size },
                    result,
                )
            } else {
                result == Err::<(u128, Vec<SegmentInfo>, Vec<C::Handle>), _>(
                    IamClientError::SessionInvalid,
                )
            },
            final(self).continues(old(self)),
    {
        self.client.attach_subscriber(&self.service_id, buffer_size)
    }

    /// Attaches as a server to the service.
    pub fn attach_server(&mut self, max_active_requests: usize) -> (result: Result<
        (u128, Vec<SegmentInfo>, Vec<C::Handle>),
        IamClientError,
    >)
        ensures
            if old(self).iam_client()@.active() {
                client::may_attach(
                    old(self).iam_client().channel(),
                    IamRequest::AttachServer { service_id: old(self).service(), max_active_requests },
                    result,
                )
            } else {
                result == Err::<(u128, Vec<SegmentInfo>, Vec<C::Handle>), _>(
                    IamClientError::SessionInvalid,
                )
            },
            final(self).continues(old(self)),
    {
        self.client.attach_server(&self.service_id, max_active_requests)
    }

    /// Attaches as a client to the service.
    pub fn attach_client(&mut self, max_pending_responses: usize) -> (result: Result<
        (u128, Vec<SegmentInfo>, Vec<C::Handle>),
        IamClientError,
    >)
        ensures
            if old(self).iam_client()@.active() {
                client::may_attach(
                    old(self).iam_client().channel(),
                    IamRequest::AttachClient { service_id: old(self).service(), max_pending_responses },
                    result,
                )
            } else {
                result == Err::<(u128, Vec<SegmentInfo>, Vec<C::Handle>), _>(
                    IamClientError::SessionInvalid,
                )
            },
            final(self).continues(old(self)),
    {
        self.client.attach_client(&self.service_id, max_pending_responses)
    }

    /// Disconnects from the server.
    pub fn disconnect(&mut self)
        ensures
            final(self).iam_client()@ == old(self).iam_client()@.closed(),
            final(self).iam_client().channel() == old(self).iam_client().channel(),
            final(self).service() == old(self).service(),
            old(self).iam_client()@.must_close() ==> old(self).iam_client().channel().was_closed(),
    {
        self.client.disconnect();
    }

    /// Takes the service over: its last owner disconnects from the server, which cleans up what
    /// belongs to the session.
    pub fn acquire_ownership(&mut self)
        ensures
            final(self).iam_client()@ == old(self).iam_client()@.closed(),
            final(self).iam_client().channel() == old(self).iam_client().channel(),
            final(self).service() == old(self).service(),
            old(self).iam_client()@.must_close() ==> old(self).iam_client().channel().was_closed(),
    {
        self.disconnect();
    }

    /// Registers a producer's segment handle with the server.
    pub fn register_segment(
        &mut self,
        port_id: u128,
        segment_size: usize,
        handle: &C::Handle,
    ) -> (result: Result<SegmentId, IamClientError>)
        ensures
            if old(self).iam_client()@.active() {
                client::may_register_segment(
                    old(self).iam_client().channel(),
                    IamRequest::RegisterSegment {
                        service_id: old(self).service(),
                        port_id,
                        segment_size,
                        handle_count: 1,
                    },
                    *handle,
                    result,
                )
            } else {
                result == Err::<SegmentId, _>(IamClientError::SessionInvalid)
            },
            final(self).continues(old(self)),
    {
        self.client.register_segment(&self.service_id, port_id, segment_size, handle)
    }

    /// Requests a segment handle for a sender port's data segment.
    pub fn request_segment_handle(&mut self, sender_port_id: u128) -> (result: Result<
        Option<(SegmentInfo, C::Handle)>,
        IamClientError,
    >)
        ensures
            if old(self).iam_client()@.active() {
                client::may_request_segment(
                    old(self).iam_client().channel(),
                    IamRequest::RequestSegmentHandle {
                        service_id: old(self).service(),
                        sender_port_id,
                    },
                    result,
                )
            } else {
                result == Err::<Option<(SegmentInfo, C::Handle)>, _>(
                    IamClientError::SessionInvalid,
                )
            },
            final(self).continues(old(self)),
    {
        self.client.request_segment_handle(&self.service_id, sender_port_id)
    }

    /// Registers a dynamic segment handle at a specific index with the server.
    pub fn register_dynamic_segment(
        &mut self,
        port_id: u128,
        segment_index: u8,
        segment_size: usize,
        handle: &C::Handle,
    ) -> (result: Result<u8, IamClientError>)
        ensures
            if old(self).iam_client()@.active() {
                client::may_register_dynamic_segment(
                    old(self).iam_client().channel(),
                    IamRequest::RegisterDynamicSegment {
                        service_id: old(self).service(),
                        port_id,
                        segment_id: segment_index,
                        segment_size,
                        handle_count: 1,
                    },
                    *handle,
                    result,
                )
            } else {
                result == Err::<u8, _>(IamClientError::SessionInvalid)
            },
            final(self).continues(old(self)),
    {
        self.client.register_dynamic_segment(
            &self.service_id,
            port_id,
            segment_index,
            segment_size,
            handle,
        )
    }

    /// Requests a specific dynamic segment handle by index from a sender port.
    pub fn request_dynamic_segment_handle(
        &mut self,
        sender_port_id: u128,
        segment_index: u8,
    ) -> (result: Result<Option<(SegmentInfo, C::Handle)>, IamClientError>)
        ensures
            if old(self).iam_client()@.active() {
                client::may_request_dynamic_segment(
                    old(self).iam_client().channel(),
                    IamRequest::RequestDynamicSegmentHandle {
                        service_id: old(self).service(),
                        sender_port_id,
                        segment_id: segment_index,
                    },
                    result,
                )
            } else {
                result == Err::<Option<(SegmentInfo, C::Handle)>, _>(
                    IamClientError::SessionInvalid,
                )
            },
            final(self).continues(old(self)),
    {
        self.client.request_dynamic_segment_handle(&self.service_id, sender_port_id, segment_index)
    }

    /// Requests a new segment to be created by the server.
    pub fn add_segment(
        &mut self,
        port_id: u128,
        requested_size: usize,
        bucket_size: usize,
        bucket_align: usize,
    ) -> (result: Result<(SegmentId, usize, Vec<C::Handle>), IamClientError>)
        ensures
            if old(self).iam_client()@.active() {
                client::may_add_segment(
                    old(self).iam_client().channel(),
                    IamRequest::AddSegment {
                        service_id: old(self).service(),
                        port_id,
                        requested_size,
                        bucket_size,
                        bucket_align,
                    },
                    result,
                )
            } else {
                result == Err::<(SegmentId, usize, Vec<C::Handle>), _>(
                    IamClientError::SessionInvalid,
                )
            },
            final(self).continues(old(self)),
    {
        self.client.add_segment(
            &self.service_id,
            port_id,
            requested_size,
            bucket_size,
            bucket_align,
        )
    }

    /// Tries to receive a pending notification without blocking.
    pub fn try_receive_notification(&mut self) -> (result: Result<
        Option<(IamNotification, Vec<C::Handle>)>,
        IamClientError,
    >)
        ensures
            if old(self).iam_client()@.active() {
                client::may_be_notified(old(self).iam_client().channel(), result)
            } else {
                result == Err::<Option<(IamNotification, Vec<C::Handle>)>, _>(
                    IamClientError::SessionInvalid,
                )
            },
            final(self).continues(old(self)),
    {
        self.client.try_receive_notification()
    }
}

/// A service whose identifier begins with a file name has an endpoint with every base, and each
/// endpoint is a file name.
pub proof fn law_named_services_have_endpoints(service_id: Seq<u8>, base: Seq<u8>)
    requires
        has_endpoint_prefix(service_id),
        is_file_name(endpoint_prefix(service_id)),
    ensures
        has_endpoint(service_id, base),
        is_file_name(endpoint_name(service_id, base)),
{
}

proof fn lemma_joined_names(one: Seq<u8>, other: Seq<u8>, base: Seq<u8>)
    ensures
        joined_name(one, base) == joined_name(other, base) <==> endpoint_prefix(one)
            == endpoint_prefix(other),
{
    let marked = base + vstd::utf8::encode_utf8("_iam_"@);
    let skipped = marked.len() as int;
    assert((marked + endpoint_prefix(one)).skip(skipped) =~= endpoint_prefix(one));
    assert((marked + endpoint_prefix(other)).skip(skipped) =~= endpoint_prefix(other));
}

/// A service that has to do with its prefix for an endpoint does not get the endpoint of one that
/// has not.
proof fn lemma_short_and_joined_names_differ(long: Seq<u8>, short: Seq<u8>, base: Seq<u8>)
    requires
        is_file_name(joined_name(long, base)),
        !is_file_name(joined_name(short, base)),
        is_file_name(endpoint_prefix(short)),
    ensures
        joined_name(long, base) != endpoint_prefix(short),
{
    let mark = vstd::utf8::encode_utf8("_iam_"@);
    let given = joined_name(long, base);
    let refused = joined_name(short, base);
    let marked = (base + mark).len() as int;
    if given == endpoint_prefix(short) {
        assert(refused.len() <= 2 * ENDPOINT_PREFIX_LENGTH);
        assert forall|i: int| 0 <= i < refused.len() implies in_file_name(#[trigger] refused[i]) by {
            if i < marked {
                assert(refused[i] == given[i]);
            } else {
                assert(refused[i] == endpoint_prefix(short)[i - marked]);
            }
        }
        lemma_marker_length();
        assert(refused.len() >= 5);
    }
}

proof fn lemma_marker_length()
    ensures
        vstd::utf8::encode_utf8("_iam_"@).len() == 5,
{
    reveal_strlit("_iam_");
    vstd::utf8::is_ascii_chars_encode_utf8("_iam_"@);
}

/// With the same base, services have the same endpoint exactly if their identifiers begin alike.
pub proof fn law_endpoints_are_distinct(one: Seq<u8>, other: Seq<u8>, base: Seq<u8>)
    requires
        has_endpoint(one, base),
        has_endpoint(other, base),
    ensures
        endpoint_name(one, base) == endpoint_name(other, base) <==> endpoint_prefix(one)
            == endpoint_prefix(other),
{
    lemma_joined_names(one, other, base);
    if is_file_name(joined_name(one, base)) && !is_file_name(joined_name(other, base)) {
        lemma_short_and_joined_names_differ(one, other, base);
    }
    if is_file_name(joined_name(other, base)) && !is_file_name(joined_name(one, base)) {
        lemma_short_and_joined_names_differ(other, one, base);
    }
}

/// The same service has different endpoints with different bases, unless neither base can stand in
/// a file name together with the service.
pub proof fn law_bases_are_distinct(service_id: Seq<u8>, base: Seq<u8>, other: Seq<u8>)
    requires
        base != other,
        is_file_name(joined_name(service_id, base)),
    ensures
        endpoint_name(service_id, base) != endpoint_name(service_id, other),
{
    let tail = vstd::utf8::encode_utf8("_iam_"@) + endpoint_prefix(service_id);
    let one = joined_name(service_id, base);
    let two = joined_name(service_id, other);
    lemma_marker_length();
    assert(one.len() > endpoint_prefix(service_id).len());
    if one == two {
        assert(one =~= base + tail);
        assert(two =~= other + tail);
        assert(one.take(one.len() - tail.len()) =~= base);
        assert(two.take(two.len() - tail.len()) =~= other);
    }
}

/// The endpoint of a service is the base, "_iam_" and the first 16 bytes of the service identifier,
/// or all of it if it is shorter. Where that is no file name, it is those bytes alone.
pub proof fn law_endpoints_are_named(service_id: Seq<u8>, base: Seq<u8>)
    ensures
        ({
            let prefix = if service_id.len() > 16 {
                service_id.take(16)
            } else {
                service_id
            };
            let joined = base + vstd::utf8::encode_utf8("_iam_"@) + prefix;
            &&& is_file_name(joined) ==> endpoint_name(service_id, base) == joined
            &&& !is_file_name(joined) ==> endpoint_name(service_id, base) == prefix
            &&& has_endpoint(service_id, base) <==> (is_file_name(joined) || is_file_name(prefix))
                && (service_id.len() > 16 ==> !vstd::utf8::is_continuation_byte(service_id[16]))
        }),
{
}

/// A file name is 1 to 255 bytes long, none of which is zero or a slash, and is neither one dot nor
/// two.
pub proof fn law_file_names_are_told(name: Seq<u8>, i: int)
    ensures
        name.len() == 0 ==> !is_file_name(name),
        name.len() > 255 ==> !is_file_name(name),
        0 <= i < name.len() && (name[i] == 0 || name[i] == 47) ==> !is_file_name(name),
        name.len() == 1 && name[0] == 46 ==> !is_file_name(name),
        name.len() == 2 && name[0] == 46 && name[1] == 46 ==> !is_file_name(name),
        0 < name.len() <= 255 && (forall|j: int|
            0 <= j < name.len() ==> #[trigger] name[j] != 0 && name[j] != 47) && !(name.len() == 1
            && name[0] == 46) && !(name.len() == 2 && name[0] == 46 && name[1] == 46)
            ==> is_file_name(name),
{
    if 0 <= i < name.len() && (name[i] == 0 || name[i] == 47) {
        assert(!in_file_name(name[i]));
    }
    if name.len() == 1 && name[0] == 46 {
        assert(name =~= seq![46u8]);
    }
    if name.len() == 2 && name[0] == 46 && name[1] == 46 {
        assert(name =~= seq![46u8, 46u8]);
    }
    if forall|j: int| 0 <= j < name.len() ==> #[trigger] name[j] != 0 && name[j] != 47 {
        assert forall|j: int| 0 <= j < name.len() implies in_file_name(#[trigger] name[j]) by {}
    }
}

/// A further attempt to connect is made after two milliseconds.
pub proof fn law_attempts_are_two_milliseconds_apart()
    ensures
        CONNECT_INTERVAL == 2,
        MAX_FILE_NAME_LENGTH == 255,
        ENDPOINT_PREFIX_LENGTH == 16,
{
}

} // verus!
