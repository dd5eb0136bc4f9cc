use std::collections::HashSet;

use iceoryx2_iam::error::{IamClientError, IamServerError};

#[test]
fn test_iam_server_error_display() {
    let error = IamServerError::ListenerCreationFailed;
    assert_eq!(
        error.to_string(),
        "IamServerError::ListenerCreationFailed"
    );

    let error = IamServerError::AcceptFailed;
    assert_eq!(error.to_string(), "IamServerError::AcceptFailed");

    let error = IamServerError::SendFailed;
    assert_eq!(error.to_string(), "IamServerError::SendFailed");

    let error = IamServerError::ReceiveFailed;
    assert_eq!(error.to_string(), "IamServerError::ReceiveFailed");

    let error = IamServerError::HandlePassingFailed;
    assert_eq!(error.to_string(), "IamServerError::HandlePassingFailed");

    let error = IamServerError::SegmentCreationFailed;
    assert_eq!(
        error.to_string(),
        "IamServerError::SegmentCreationFailed"
    );

    let error = IamServerError::SegmentNotFound;
    assert_eq!(error.to_string(), "IamServerError::SegmentNotFound");

    let error = IamServerError::SessionNotFound;
    assert_eq!(error.to_string(), "IamServerError::SessionNotFound");

    let error = IamServerError::PolicyEvaluationFailed;
    assert_eq!(
        error.to_string(),
        "IamServerError::PolicyEvaluationFailed"
    );

    let error = IamServerError::SerializationError;
    assert_eq!(error.to_string(), "IamServerError::SerializationError");

    let error = IamServerError::CredentialsFailed;
    assert_eq!(error.to_string(), "IamServerError::CredentialsFailed");

    let error = IamServerError::ResourceLimitExceeded;
    assert_eq!(
        error.to_string(),
        "IamServerError::ResourceLimitExceeded"
    );

    let error = IamServerError::InternalError;
    assert_eq!(error.to_string(), "IamServerError::InternalError");
}

#[test]
fn test_iam_client_error_display() {
    let error = IamClientError::ConnectionFailed;
    assert_eq!(error.to_string(), "IamClientError::ConnectionFailed");

    let error = IamClientError::HandshakeFailed;
    assert_eq!(error.to_string(), "IamClientError::HandshakeFailed");

    let error = IamClientError::VersionMismatch;
    assert_eq!(error.to_string(), "IamClientError::VersionMismatch");

    let error = IamClientError::RequestDenied;
    assert_eq!(error.to_string(), "IamClientError::RequestDenied");

    let error = IamClientError::SendFailed;
    assert_eq!(error.to_string(), "IamClientError::SendFailed");

    let error = IamClientError::ReceiveFailed;
    assert_eq!(error.to_string(), "IamClientError::ReceiveFailed");

    let error = IamClientError::HandleReceiveFailed;
    assert_eq!(error.to_string(), "IamClientError::HandleReceiveFailed");

    let error = IamClientError::Timeout;
    assert_eq!(error.to_string(), "IamClientError::Timeout");

    let error = IamClientError::SessionInvalid;
    assert_eq!(error.to_string(), "IamClientError::SessionInvalid");

    let error = IamClientError::SerializationError;
    assert_eq!(error.to_string(), "IamClientError::SerializationError");

    let error = IamClientError::ProtocolError;
    assert_eq!(error.to_string(), "IamClientError::ProtocolError");

    let error = IamClientError::InternalError;
    assert_eq!(error.to_string(), "IamClientError::InternalError");
}

#[test]
fn test_iam_server_error_equality() {
    assert_eq!(
        IamServerError::ListenerCreationFailed,
        IamServerError::ListenerCreationFailed
    );
    assert_ne!(
        IamServerError::ListenerCreationFailed,
        IamServerError::AcceptFailed
    );
}

#[test]
fn test_iam_client_error_equality() {
    assert_eq!(
        IamClientError::ConnectionFailed,
        IamClientError::ConnectionFailed
    );
    assert_ne!(
        IamClientError::ConnectionFailed,
        IamClientError::HandshakeFailed
    );
}

#[test]
fn test_iam_server_error_clone_copy() {
    let error = IamServerError::InternalError;
    let cloned = error.clone();
    let copied = error;
    assert_eq!(error, cloned);
    assert_eq!(error, copied);
}

#[test]
fn test_iam_client_error_clone_copy() {
    let error = IamClientError::InternalError;
    let cloned = error.clone();
    let copied = error;
    assert_eq!(error, cloned);
    assert_eq!(error, copied);
}

#[test]
fn test_iam_server_error_hash() {
    let mut set = HashSet::new();
    set.insert(IamServerError::ListenerCreationFailed);
    set.insert(IamServerError::AcceptFailed);
    set.insert(IamServerError::SendFailed);
    assert_eq!(set.len(), 3);
}

#[test]
fn test_iam_client_error_hash() {
    let mut set = HashSet::new();
    set.insert(IamClientError::ConnectionFailed);
    set.insert(IamClientError::HandshakeFailed);
    set.insert(IamClientError::Timeout);
    assert_eq!(set.len(), 3);
}

#[test]
fn errors_of_segments_and_handles_have_their_own_text() {
    assert_eq!(
        IamServerError::SegmentCreationNotSupported.to_string(),
        "IamServerError::SegmentCreationNotSupported"
    );
    assert_eq!(
        IamServerError::InvalidConfiguration.to_string(),
        "IamServerError::InvalidConfiguration"
    );
    assert_eq!(
        IamServerError::InvalidSegmentSize.to_string(),
        "IamServerError::InvalidSegmentSize"
    );
    assert_eq!(
        IamClientError::HandleSendFailed.to_string(),
        "IamClientError::HandleSendFailed"
    );
}
