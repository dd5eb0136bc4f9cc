//! Errors of the server and of the client.

use vstd::prelude::*;

verus! {

/// Errors that can occur in server operations.
#[derive(Debug, Clone, Copy, PartialEq, Eq, Hash, Structural)]
pub enum IamServerError {
    /// Failed to create a listener for incoming client connections.
    ListenerCreationFailed,
    /// Failed to accept an incoming client connection.
    AcceptFailed,
    /// Failed to send a response to a client.
    SendFailed,
    /// Failed to receive a request from a client.
    ReceiveFailed,
    /// Failed to pass a handle to a client.
    HandlePassingFailed,
    /// Failed to create a shared memory segment.
    SegmentCreationFailed,
    /// The service has no factory that creates segments.
    SegmentCreationNotSupported,
    /// The requested segment was not found.
    SegmentNotFound,
    /// The requested session was not found.
    SessionNotFound,
    /// Policy evaluation failed for the request.
    PolicyEvaluationFailed,
    /// Failed to serialize or deserialize protocol messages.
    SerializationError,
    /// Failed to retrieve client credentials.
    CredentialsFailed,
    /// A resource limit has been exceeded.
    ResourceLimitExceeded,
    /// Invalid segment size (zero or exceeds maximum).
    InvalidSegmentSize,
    /// The layout asked of a segment is invalid.
    InvalidConfiguration,
    /// An internal error occurred.
    InternalError,
}

impl IamServerError {
    /// The text that names the error.
    pub open spec fn text(self) -> Seq<char> {
        match self {
            IamServerError::ListenerCreationFailed => "IamServerError::ListenerCreationFailed"@,
            IamServerError::AcceptFailed => "IamServerError::AcceptFailed"@,
            IamServerError::SendFailed => "IamServerError::SendFailed"@,
            IamServerError::ReceiveFailed => "IamServerError::ReceiveFailed"@,
            IamServerError::HandlePassingFailed => "IamServerError::HandlePassingFailed"@,
            IamServerError::SegmentCreationFailed => "IamServerError::SegmentCreationFailed"@,
            IamServerError::SegmentCreationNotSupported => "IamServerError::SegmentCreationNotSupported"@,
            IamServerError::SegmentNotFound => "IamServerError::SegmentNotFound"@,
            IamServerError::SessionNotFound => "IamServerError::SessionNotFound"@,
            IamServerError::PolicyEvaluationFailed => "IamServerError::PolicyEvaluationFailed"@,
            IamServerError::SerializationError => "IamServerError::SerializationError"@,
            IamServerError::CredentialsFailed => "IamServerError::CredentialsFailed"@,
            IamServerError::ResourceLimitExceeded => "IamServerError::ResourceLimitExceeded"@,
            IamServerError::InvalidSegmentSize => "IamServerError::InvalidSegmentSize"@,
            IamServerError::InvalidConfiguration => "IamServerError::InvalidConfiguration"@,
            IamServerError::InternalError => "IamServerError::InternalError"@,
        }
    }

    /// Returns the text that names the error.
    pub fn to_string(&self) -> (text: String)
        ensures
            text@ == self.text(),
    {
        let text = match self {
            IamServerError::ListenerCreationFailed => "IamServerError::ListenerCreationFailed",
            IamServerError::AcceptFailed => "IamServerError::AcceptFailed",
            IamServerError::SendFailed => "IamServerError::SendFailed",
            IamServerError::ReceiveFailed => "IamServerError::ReceiveFailed",
            IamServerError::HandlePassingFailed => "IamServerError::HandlePassingFailed",
            IamServerError::SegmentCreationFailed => "IamServerError::SegmentCreationFailed",
            IamServerError::SegmentCreationNotSupported => "IamServerError::SegmentCreationNotSupported",
            IamServerError::SegmentNotFound => "IamServerError::SegmentNotFound",
            IamServerError::SessionNotFound => "IamServerError::SessionNotFound",
            IamServerError::PolicyEvaluationFailed => "IamServerError::PolicyEvaluationFailed",
            IamServerError::SerializationError => "IamServerError::SerializationError",
            IamServerError::CredentialsFailed => "IamServerError::CredentialsFailed",
            IamServerError::ResourceLimitExceeded => "IamServerError::ResourceLimitExceeded",
            IamServerError::InvalidSegmentSize => "IamServerError::InvalidSegmentSize",
            IamServerError::InvalidConfiguration => "IamServerError::InvalidConfiguration",
            IamServerError::InternalError => "IamServerError::InternalError",
        };
        text.to_owned()
    }
}

/// Errors that can occur in client operations.
#[derive(Debug, Clone, Copy, PartialEq, Eq, Hash, Structural)]
pub enum IamClientError {
    /// Failed to establish a connection to the server.
    ConnectionFailed,
    /// The handshake with the server failed.
    HandshakeFailed,
    /// Protocol version mismatch between client and server.
    VersionMismatch,
    /// The request was denied by the server.
    RequestDenied,
    /// Failed to send a request to the server.
    SendFailed,
    /// Failed to receive a response from the server.
    ReceiveFailed,
    /// Failed to send a handle to the server.
    HandleSendFailed,
    /// Failed to receive a handle from the server.
    HandleReceiveFailed,
    /// The operation timed out.
    Timeout,
    /// The session is invalid or has expired.
    SessionInvalid,
    /// Failed to serialize or deserialize protocol messages.
    SerializationError,
    /// A protocol error occurred.
    ProtocolError,
    /// An internal error occurred.
    InternalError,
}

impl IamClientError {
    /// The text that names the error.
    pub open spec fn text(self) -> Seq<char> {
        match self {
            IamClientError::ConnectionFailed => "IamClientError::ConnectionFailed"@,
            IamClientError::HandshakeFailed => "IamClientError::HandshakeFailed"@,
            IamClientError::VersionMismatch => "IamClientError::VersionMismatch"@,
            IamClientError::RequestDenied => "IamClientError::RequestDenied"@,
            IamClientError::SendFailed => "IamClientError::SendFailed"@,
            IamClientError::ReceiveFailed => "IamClientError::ReceiveFailed"@,
            IamClientError::HandleSendFailed => "IamClientError::HandleSendFailed"@,
            IamClientError::HandleReceiveFailed => "IamClientError::HandleReceiveFailed"@,
            IamClientError::Timeout => "IamClientError::Timeout"@,
            IamClientError::SessionInvalid => "IamClientError::SessionInvalid"@,
            IamClientError::SerializationError => "IamClientError::SerializationError"@,
            IamClientError::ProtocolError => "IamClientError::ProtocolError"@,
            IamClientError::InternalError => "IamClientError::InternalError"@,
        }
    }

    /// Returns the text that names the error.
    pub fn to_string(&self) -> (text: String)
        ensures
            text@ == self.text(),
    {
        let text = match self {
            IamClientError::ConnectionFailed => "IamClientError::ConnectionFailed",
            IamClientError::HandshakeFailed => "IamClientError::HandshakeFailed",
            IamClientError::VersionMismatch => "IamClientError::VersionMismatch",
            IamClientError::RequestDenied => "IamClientError::RequestDenied",
            IamClientError::SendFailed => "IamClientError::SendFailed",
            IamClientError::ReceiveFailed => "IamClientError::ReceiveFailed",
            IamClientError::HandleSendFailed => "IamClientError::HandleSendFailed",
            IamClientError::HandleReceiveFailed => "IamClientError::HandleReceiveFailed",
            IamClientError::Timeout => "IamClientError::Timeout",
            IamClientError::SessionInvalid => "IamClientError::SessionInvalid",
            IamClientError::SerializationError => "IamClientError::SerializationError",
            IamClientError::ProtocolError => "IamClientError::ProtocolError",
            IamClientError::InternalError => "IamClientError::InternalError",
        };
        text.to_owned()
    }
}

/// Each error of the server is named by its own name.
pub proof fn law_server_errors_are_named(error: IamServerError)
    ensures
        match error {
            IamServerError::ListenerCreationFailed => error.text() == "IamServerError::ListenerCreationFailed"@,
            IamServerError::AcceptFailed => error.text() == "IamServerError::AcceptFailed"@,
            IamServerError::SendFailed => error.text() == "IamServerError::SendFailed"@,
            IamServerError::ReceiveFailed => error.text() == "IamServerError::ReceiveFailed"@,
            IamServerError::HandlePassingFailed => error.text() == "IamServerError::HandlePassingFailed"@,
            IamServerError::SegmentCreationFailed => error.text() == "IamServerError::SegmentCreationFailed"@,
            IamServerError::SegmentCreationNotSupported => error.text() == "IamServerError::SegmentCreationNotSupported"@,
            IamServerError::SegmentNotFound => error.text() == "IamServerError::SegmentNotFound"@,
            IamServerError::SessionNotFound => error.text() == "IamServerError::SessionNotFound"@,
            IamServerError::PolicyEvaluationFailed => error.text() == "IamServerError::PolicyEvaluationFailed"@,
            IamServerError::SerializationError => error.text() == "IamServerError::SerializationError"@,
            IamServerError::CredentialsFailed => error.text() == "IamServerError::CredentialsFailed"@,
            IamServerError::ResourceLimitExceeded => error.text() == "IamServerError::ResourceLimitExceeded"@,
            IamServerError::InvalidSegmentSize => error.text() == "IamServerError::InvalidSegmentSize"@,
            IamServerError::InvalidConfiguration => error.text() == "IamServerError::InvalidConfiguration"@,
            IamServerError::InternalError => error.text() == "IamServerError::InternalError"@,
        },
{
}

/// Each error of the client is named by its own name.
pub proof fn law_client_errors_are_named(error: IamClientError)
    ensures
        match error {
            IamClientError::ConnectionFailed => error.text() == "IamClientError::ConnectionFailed"@,
            IamClientError::HandshakeFailed => error.text() == "IamClientError::HandshakeFailed"@,
            IamClientError::VersionMismatch => error.text() == "IamClientError::VersionMismatch"@,
            IamClientError::RequestDenied => error.text() == "IamClientError::RequestDenied"@,
            IamClientError::SendFailed => error.text() == "IamClientError::SendFailed"@,
            IamClientError::ReceiveFailed => error.text() == "IamClientError::ReceiveFailed"@,
            IamClientError::HandleSendFailed => error.text() == "IamClientError::HandleSendFailed"@,
            IamClientError::HandleReceiveFailed => error.text() == "IamClientError::HandleReceiveFailed"@,
            IamClientError::Timeout => error.text() == "IamClientError::Timeout"@,
            IamClientError::SessionInvalid => error.text() == "IamClientError::SessionInvalid"@,
            IamClientError::SerializationError => error.text() == "IamClientError::SerializationError"@,
            IamClientError::ProtocolError => error.text() == "IamClientError::ProtocolError"@,
            IamClientError::InternalError => error.text() == "IamClientError::InternalError"@,
        },
{
}

} // verus!
