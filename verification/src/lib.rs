//! Identity and access management for secured services.
//!
//! A service's server decides who may take part in the service, keeps account of what each
//! session uses, and brokers the handles of shared memory segments between producers and
//! consumers. Its state is modelled by [`server_state::ServerState`], and what holds of it is
//! stated in [`request_laws`], [`brokering_laws`], [`server_laws`], [`accounting_laws`],
//! [`holding_laws`], [`segment_laws`] and [`conversation_laws`].

pub mod accounting_laws;
pub mod audit;
pub mod brokering_laws;
pub mod client;
mod collections;
pub mod configured_policy;
pub mod conversation_laws;
pub mod data_segment;
pub mod error;
pub mod holding_laws;
pub mod ledger;
pub mod policy;
pub mod protocol;
pub mod request_laws;
pub mod resource;
pub mod secured_context;
pub mod segment_factory;
pub mod segment_laws;
pub mod segment_manager;
pub mod server;
pub mod server_laws;
pub mod server_state;
pub mod session;
pub mod text;
pub mod turn;
pub mod types;
pub mod wire;

pub use error::{IamClientError, IamServerError};
pub use policy::{
    DefaultPolicy, IamPolicy, PolicyDecision, ResourceLimits, MAX_REASONABLE_SEGMENT_SIZE,
};
pub use protocol::{
    DenialReason, IamNotification, IamRequest, IamResponse, MessagingPatternKind, PortType,
    ProtocolVersion, SegmentInfo, SessionId, INVALID_SESSION_ID, MAX_ERROR_MESSAGE_LENGTH,
    MAX_HANDLES_PER_MESSAGE, MAX_SEGMENTS_PER_ATTACH,
};
pub use segment_manager::{ManagedSegment, SegmentManager};
pub use server::IamServer;
pub use session::{ClientSession, PortInfo, SessionResourceUsage};
