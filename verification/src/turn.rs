//! A turn of a session: one request is received, carried out and answered.
//!
//! Receiving and sending, creating segments and duplicating handles are up to the caller. Each
//! function here takes what came of the last of these and says what to do next.

use vstd::prelude::*;
use crate::error::IamServerError;
use crate::policy::{IamPolicy, QosBounds, ResourceLimits, Verdict};
use crate::protocol::{Answer, IamRequest, IamResponse, SessionId};
use crate::server;
use crate::server::{AuditRecord, IamServer, Notice, Outcome, Reply};
use crate::server_state;
use crate::server_state::{Effect, HandleOrder, ReplyState, SegmentOrder, ServerState};
use crate::types::{SegmentId, ServiceId};

verus! {

/// A segment that was created, of which the consumers of its service are told before the
/// producer gets it.
#[derive(Debug)]
pub struct Announcement<H> {
    /// The service.
    pub service_id: ServiceId,
    /// The segment.
    pub segment_id: SegmentId,
    /// The size of the segment.
    pub size: usize,
    /// The response for the producer.
    pub response: IamResponse,
    /// The handles for the producer: the segment's handle.
    pub handles: Vec<H>,
}

/// What to do next.
#[derive(Debug)]
#[allow(inconsistent_fields)]
pub enum Step<H> {
    /// Create a segment, then go on with [`IamServer::segment_created`].
    CreateSegment {
        /// The segment to create.
        order: SegmentOrder,
    },
    /// Duplicate the segment's handle for the consumers of the service, then go on with
    /// [`IamServer::handles_copied`].
    Announce {
        /// The segment.
        announcement: Announcement<H>,
    },
    /// Receive handles from the client, then go on with [`IamServer::handles_received`].
    ReceiveHandles {
        /// The registration that the handles belong to.
        order: HandleOrder,
    },
    /// Send the response, then go on with [`response_sent`].
    Respond {
        /// The response.
        response: IamResponse,
        /// The handles that follow it.
        handles: Vec<H>,
    },
    /// Send the handles, then go on with [`handles_sent`].
    PassHandles {
        /// The handles.
        handles: Vec<H>,
    },
    /// The turn is over: settle it with [`IamServer::settle_turn`].
    Done {
        /// The number of requests that were processed, or why the session is given up.
        turn: Result<usize, IamServerError>,
    },
}

/// The model of [`Step`].
#[verifier::ext_equal]
#[allow(inconsistent_fields)]
pub enum StepState<H> {
    /// See [`Step::CreateSegment`].
    CreateSegment { order: SegmentOrder },
    /// See [`Step::Announce`].
    Announce {
        service: Seq<char>,
        segment_id: SegmentId,
        size: usize,
        answer: Answer,
        handles: Seq<H>,
    },
    /// See [`Step::ReceiveHandles`].
    ReceiveHandles { order: HandleOrder },
    /// See [`Step::Respond`].
    Respond { answer: Answer, handles: Seq<H> },
    /// See [`Step::PassHandles`].
    PassHandles { handles: Seq<H> },
    /// See [`Step::Done`].
    Done { turn: Result<usize, IamServerError> },
}

impl<H> View for Step<H> {
    type V = StepState<H>;

    open spec fn view(&self) -> StepState<H> {
        match self {
            Step::CreateSegment { order } => StepState::CreateSegment { order: *order },
            Step::Announce { announcement } => StepState::Announce {
                service: announcement.service_id@,
                segment_id: announcement.segment_id,
                size: announcement.size,
                answer: announcement.response@,
                handles: announcement.handles@,
            },
            Step::ReceiveHandles { order } => StepState::ReceiveHandles { order: *order },
            Step::Respond { response, handles } => StepState::Respond {
                answer: response@,
                handles: handles@,
            },
            Step::PassHandles { handles } => StepState::PassHandles { handles: handles@ },
            Step::Done { turn } => StepState::Done { turn: *turn },
        }
    }
}

/// What to do next about a reply.
pub open spec fn step_for<H>(reply: ReplyState<H>) -> StepState<H> {
    match reply {
        ReplyState::Answer { answer, handles } => StepState::Respond { answer, handles },
        ReplyState::Failed { error } => StepState::Done { turn: Err(error) },
        ReplyState::CreateSegment { order } => StepState::CreateSegment { order },
        ReplyState::ReceiveHandles { order } => StepState::ReceiveHandles { order },
    }
}

/// What to do next about a segment that was to be created: it is announced if it was, and its
/// port is a producer of a service.
pub open spec fn step_for_segment<H>(
    before: ServerState<H>,
    order: SegmentOrder,
    effect: Effect<H>,
) -> StepState<H> {
    match effect.reply {
        ReplyState::Answer { answer: Answer::AddSegmentOk { segment_id, size, handle_count }, handles }
            => {
            let answer = Answer::AddSegmentOk { segment_id, size, handle_count };
            if before.producers.contains_key(order.port_id) {
                StepState::Announce {
                    service: before.producers[order.port_id],
                    segment_id,
                    size,
                    answer,
                    handles,
                }
            } else {
                StepState::Respond { answer, handles }
            }
        },
        _ => step_for(effect.reply),
    }
}

/// Returns what to do next about a reply.
fn next_step<H>(reply: Reply<H>) -> (step: Step<H>)
    ensures
        step@ == step_for(reply@),
{
    match reply {
        Reply::Answer { response, handles } => Step::Respond { response, handles },
        Reply::Failed { error } => Step::Done { turn: Err(error) },
        Reply::CreateSegment { order } => Step::CreateSegment { order },
        Reply::ReceiveHandles { order } => Step::ReceiveHandles { order },
    }
}

/// Goes on once the response was sent: the handles follow it, if there are any.
pub fn response_sent<H>(sent: Result<(), IamServerError>, handles: Vec<H>) -> (step: Step<H>)
    ensures
        step@ == (match sent {
            Err(error) => StepState::Done { turn: Err(error) },
            Ok(_) => if handles@.len() == 0 {
                StepState::Done { turn: Ok(1) }
            } else {
                StepState::PassHandles { handles: handles@ }
            },
        }),
{
    match sent {
        Err(error) => Step::Done { turn: Err(error) },
        Ok(()) => {
            if handles.len() == 0 {
                Step::Done { turn: Ok(1) }
            } else {
                Step::PassHandles { handles }
            }
        },
    }
}

/// Ends the turn once the handles were sent.
pub fn handles_sent(sent: Result<(), IamServerError>) -> (turn: Result<usize, IamServerError>)
    ensures
        turn == (match sent {
            Ok(_) => Ok(1usize),
            Err(error) => Err(error),
        }),
{
    match sent {
        Ok(()) => Ok(1),
        Err(error) => Err(error),
    }
}

impl<P, H> IamServer<P, H> {
    /// Goes on once a segment was to be created: `created` is what came of that, and `kept` a
    /// duplicate of the handle for the server.
    pub fn segment_created(
        &mut self,
        order: SegmentOrder,
        created: Result<(H, usize), IamServerError>,
        kept: Option<H>,
    ) -> (step: Step<H>)
        requires
            old(self)@.counts_further(order.session_id),
        ensures
            step@ == step_for_segment(
                old(self)@,
                order,
                old(self)@.segment_created(order, created, kept),
            ),
            final(self)@ == old(self)@.segment_created(order, created, kept).state,
            final(self).same_setup(old(self)),
    {
        let Outcome { reply, .. } = self.complete_add_segment(order, created, kept);
        if let Reply::Answer {
            response: IamResponse::AddSegmentOk { segment_id, size, handle_count },
            handles,
        } = reply {
            let response = IamResponse::AddSegmentOk { segment_id, size, handle_count };
            return match self.service_of_port(order.port_id) {
                Some(service_id) => Step::Announce {
                    announcement: Announcement {
                        service_id: service_id.clone(),
                        segment_id,
                        size,
                        response,
                        handles,
                    },
                },
                None => Step::Respond { response, handles },
            };
        }
        next_step(reply)
    }

    /// Goes on once the handle of a new segment was duplicated for the consumers of its service:
    /// they are told of it, and the producer gets its response.
    ///
    /// The copies are those of [`IamServer::broadcast_segment_to_consumers`]; without them,
    /// where the handle could not be duplicated for the broadcast at all, nobody is told. The
    /// notices are to be sent whether or not they arrive.
    pub fn handles_copied(
        &mut self,
        announcement: Announcement<H>,
        copies: Option<Vec<(Option<H>, Option<H>)>>,
    ) -> (result: (Vec<Notice<H>>, Step<H>))
        requires
            copies matches Some(list) ==> list@.len() == old(self)@.consumers_of(
                announcement.service_id@,
            ).len(),
            copies is Some ==> forall|i: int|
                0 <= i < old(self)@.consumers_of(announcement.service_id@).len()
                    ==> old(self)@.can_grant(
                    (#[trigger] old(self)@.consumers_of(announcement.service_id@)[i]).0,
                    announcement.segment_id,
                ),
        ensures
            result.1@ == (StepState::Respond {
                answer: announcement.response@,
                handles: announcement.handles@,
            }),
            match copies {
                Some(list) => {
                    &&& server::notice_states(result.0@) == server_state::notices(
                        old(self)@,
                        announcement.segment_id,
                        announcement.size,
                        old(self)@.consumers_of(announcement.service_id@),
                        list@,
                        list@.len() as int,
                    )
                    &&& final(self)@ == server_state::after_broadcast(
                        old(self)@,
                        announcement.segment_id,
                        old(self)@.consumers_of(announcement.service_id@),
                        list@,
                        list@.len() as int,
                    )
                },
                None => result.0@.len() == 0 && final(self)@ == old(self)@,
            },
            final(self).same_setup(old(self)),
    {
        let notices = match copies {
            Some(list) => self.broadcast_segment_to_consumers(
                &announcement.service_id,
                announcement.segment_id,
                announcement.size,
                list,
            ),
            None => Vec::new(),
        };
        let step = Step::Respond {
            response: announcement.response,
            handles: announcement.handles,
        };
        (notices, step)
    }

    /// Goes on once handles were to be received from the client.
    pub fn handles_received(
        &mut self,
        order: HandleOrder,
        received: Result<Vec<H>, IamServerError>,
    ) -> (step: Step<H>)
        requires
            old(self)@.counts_further(order.session_id),
        ensures
            match received {
                Err(error) => step@ == (StepState::<H>::Done { turn: Err(error) }) && final(self)@
                    == old(self)@,
                Ok(handles) => step@ == step_for(
                    old(self)@.handles_received(order, handles@).reply,
                ) && final(self)@ == old(self)@.handles_received(order, handles@).state,
            },
            final(self).same_setup(old(self)),
    {
        match received {
            Err(error) => Step::Done { turn: Err(error) },
            Ok(handles) => {
                let Outcome { reply, .. } = self.complete_registration(order, handles);
                next_step(reply)
            },
        }
    }
}

impl<P: IamPolicy, H> IamServer<P, H> {
    /// Begins a turn with what was received from a session: a request, with what came of
    /// duplicating the handles that [`IamServer::wanted_handles`] gives for it, or nothing.
    ///
    /// A session that is not there, and one from which nothing can be received, is given up.
    pub fn begin_turn(
        &mut self,
        session_id: SessionId,
        received: Result<Option<IamRequest>, IamServerError>,
        copies: Vec<Option<H>>,
    ) -> (result: (Option<AuditRecord>, Step<H>))
        requires
            received matches Ok(Some(request)) ==> old(self)@.ready_for(session_id, request),
        ensures
            if !old(self)@.sessions.contains_key(session_id.value) {
                &&& result.0 is None
                &&& result.1@ == (StepState::<H>::Done { turn: Err(IamServerError::SessionNotFound) })
                &&& final(self)@ == old(self)@
            } else {
                match received {
                    Err(error) => {
                        &&& result.0 is None
                        &&& result.1@ == (StepState::<H>::Done { turn: Err(error) })
                        &&& final(self)@ == old(self)@
                    },
                    Ok(None) => {
                        &&& result.0 is None
                        &&& result.1@ == (StepState::<H>::Done { turn: Ok(0) })
                        &&& final(self)@ == old(self)@
                    },
                    Ok(Some(request)) => exists|
                        verdict: Verdict,
                        limits: ResourceLimits,
                        bounds: QosBounds,
                    |
                        {
                            let effect = #[trigger] old(self)@.dispatched_request(
                                session_id,
                                request,
                                verdict,
                                limits,
                                bounds,
                                copies@,
                            );
                            &&& server::ruled(
                                old(self).rules(),
                                old(self)@,
                                session_id,
                                request,
                                verdict,
                                limits,
                                bounds,
                            )
                            &&& match result.0 {
                                Some(record) => effect.audit == Some(record@),
                                None => effect.audit is None,
                            }
                            &&& result.1@ == step_for(effect.reply)
                            &&& final(self)@ == effect.state
                        },
                }
            },
            final(self).same_setup(old(self)),
    {
        if self.session(session_id).is_none() {
            return (None, Step::Done { turn: Err(IamServerError::SessionNotFound) });
        }
        match received {
            Err(error) => (None, Step::Done { turn: Err(error) }),
            Ok(None) => (None, Step::Done { turn: Ok(0) }),
            Ok(Some(request)) => {
                let Outcome { audit, reply } = self.dispatch_request(session_id, request, copies);
                (audit, next_step(reply))
            },
        }
    }
}

} // verus!
