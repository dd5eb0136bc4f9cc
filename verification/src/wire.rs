//! The wire format: messages are framed with their length, four bytes in little-endian order.
//!
//! What a message is in bytes, and how bytes get from one process to another, is not this
//! module's concern: it frames payloads, and finds payloads again in the bytes that arrive piece
//! by piece.

use vstd::prelude::*;
use crate::error::{IamClientError, IamServerError};

verus! {

/// Initial buffer capacity for message serialization and deserialization.
pub const INITIAL_BUFFER_CAPACITY: usize = 4096;

/// Maximum message size (16 MB).
pub const MAX_MESSAGE_SIZE: usize = 16777216;

/// The number of bytes in front of a payload.
pub const HEADER_SIZE: usize = 4;

/// Why a control channel could not send.
#[derive(Debug, Clone, Copy, PartialEq, Eq, Structural)]
pub enum ControlChannelSendError {
    /// The message is too large for the channel.
    MessageTooLarge,
    /// The peer reset the connection.
    ConnectionReset,
    /// A signal interrupted the call.
    Interrupt,
    /// An input or output error.
    IoError,
    /// The process lacks a permission.
    InsufficientPermissions,
    /// The system lacks a resource.
    InsufficientResources,
    /// The system lacks memory.
    InsufficientMemory,
    /// There is no connection.
    NotConnected,
    /// The peer has closed its end.
    BrokenPipe,
    /// The call would have blocked.
    WouldBlock,
    /// An internal failure.
    InternalFailure,
}

/// Why a control channel could not receive.
#[derive(Debug, Clone, Copy, PartialEq, Eq, Structural)]
pub enum ControlChannelReceiveError {
    /// The peer reset the connection.
    ConnectionReset,
    /// A signal interrupted the call.
    Interrupt,
    /// An input or output error.
    IoError,
    /// The system lacks a resource.
    InsufficientResources,
    /// The system lacks memory.
    InsufficientMemory,
    /// There is no connection.
    NotConnected,
    /// The call would have blocked.
    WouldBlock,
    /// A handle that arrived is not valid.
    ReceivedInvalidFileDescriptor,
    /// An internal failure.
    InternalFailure,
}

/// Four bytes for a number, the least significant first.
pub open spec fn header_of(length: int) -> Seq<u8> {
    seq![
        (length % 256) as u8,
        (length / 256 % 256) as u8,
        (length / 65536 % 256) as u8,
        (length / 16777216 % 256) as u8,
    ]
}

/// The number that four bytes stand for, the least significant first.
pub open spec fn length_in(header: Seq<u8>) -> int {
    header[0] + 256 * header[1] + 65536 * header[2] + 16777216 * header[3]
}

/// A payload with its length in front.
pub open spec fn frame_of(payload: Seq<u8>) -> Seq<u8> {
    header_of(payload.len() as int) + payload
}

/// What bytes that have arrived amount to.
pub enum Progress {
    /// More bytes are needed: so many, before it can be said what follows.
    Wanting(int),
    /// The length is not one that a message can have.
    Malformed,
    /// The message is here.
    Complete(Seq<u8>),
}

/// What the bytes that have arrived since the last message amount to.
pub open spec fn progress(arrived: Seq<u8>) -> Progress {
    if arrived.len() < HEADER_SIZE {
        Progress::Wanting(HEADER_SIZE - arrived.len())
    } else if !(0 < length_in(arrived) <= MAX_MESSAGE_SIZE) {
        Progress::Malformed
    } else if arrived.len() < HEADER_SIZE + length_in(arrived) {
        Progress::Wanting(HEADER_SIZE + length_in(arrived) - arrived.len())
    } else {
        Progress::Complete(arrived.subrange(HEADER_SIZE as int, HEADER_SIZE + length_in(arrived)))
    }
}

/// Frames a payload. There is no frame for a payload beyond [`MAX_MESSAGE_SIZE`].
pub fn frame(payload: &Vec<u8>) -> (framed: Option<Vec<u8>>)
    ensures
        framed is Some <==> payload@.len() <= MAX_MESSAGE_SIZE,
        framed matches Some(bytes) ==> bytes@ == frame_of(payload@),
{
    if payload.len() > MAX_MESSAGE_SIZE {
        return None;
    }
    let length: usize = payload.len();
    let mut bytes: Vec<u8> = Vec::with_capacity(HEADER_SIZE + length);
    bytes.push((length % 256) as u8);
    bytes.push((length / 256 % 256) as u8);
    bytes.push((length / 65536 % 256) as u8);
    bytes.push((length / 16777216 % 256) as u8);
    assert(bytes@ =~= header_of(length as int));
    bytes.extend_from_slice(payload.as_slice());
    assert(bytes@ =~= frame_of(payload@));
    Some(bytes)
}

/// Frames a payload for the client.
///
/// A payload that is too large is [`IamServerError::SerializationError`].
pub fn frame_for_client(payload: &Vec<u8>) -> (framed: Result<Vec<u8>, IamServerError>)
    ensures
        match framed {
            Ok(bytes) => payload@.len() <= MAX_MESSAGE_SIZE && bytes@ == frame_of(payload@),
            Err(error) => payload@.len() > MAX_MESSAGE_SIZE && error
                == IamServerError::SerializationError,
        },
{
    match frame(payload) {
        Some(bytes) => Ok(bytes),
        None => Err(IamServerError::SerializationError),
    }
}

/// Frames a payload for the server.
///
/// A payload that is too large is [`IamClientError::SerializationError`].
pub fn frame_for_server(payload: &Vec<u8>) -> (framed: Result<Vec<u8>, IamClientError>)
    ensures
        match framed {
            Ok(bytes) => payload@.len() <= MAX_MESSAGE_SIZE && bytes@ == frame_of(payload@),
            Err(error) => payload@.len() > MAX_MESSAGE_SIZE && error
                == IamClientError::SerializationError,
        },
{
    match frame(payload) {
        Some(bytes) => Ok(bytes),
        None => Err(IamClientError::SerializationError),
    }
}

/// Why no message could be received.
#[derive(Debug, Clone, Copy, PartialEq, Eq, Structural)]
pub enum ReceiveFault {
    /// The channel reported an error.
    Channel(ControlChannelReceiveError),
    /// The peer sent nothing more in the midst of a message, or where one was waited for.
    Ended,
    /// The length is zero or beyond [`MAX_MESSAGE_SIZE`].
    Malformed,
}

/// What came of bytes that arrived.
#[derive(Debug)]
pub enum Reception {
    /// There is no message.
    Nothing,
    /// More bytes are to be waited for.
    Pending,
    /// The payload of a message.
    Complete(Vec<u8>),
    /// There will be no message.
    Fault(ReceiveFault),
}

/// Receives one message, piece by piece.
#[derive(Debug)]
pub struct FrameReader {
    arrived: Vec<u8>,
}

impl View for FrameReader {
    type V = Seq<u8>;

    closed spec fn view(&self) -> Seq<u8> {
        self.arrived@
    }
}

impl FrameReader {
    /// A reader at which nothing has arrived yet.
    pub fn new() -> (reader: Self)
        ensures
            reader@.len() == 0,
    {
        FrameReader { arrived: Vec::new() }
    }

    /// Returns the length that the header gives.
    fn length(&self) -> (length: usize)
        requires
            self@.len() >= HEADER_SIZE,
        ensures
            length == length_in(self@),
    {
        self.arrived[0] as usize + 256 * self.arrived[1] as usize + 65536 * self.arrived[2] as usize
            + 16777216 * self.arrived[3] as usize
    }

    /// Returns how many bytes to ask the channel for, zero if a message is complete or will
    /// never be. A reader asks for no byte beyond its message.
    pub fn wanted(&self) -> (wanted: usize)
        ensures
            wanted == (match progress(self@) {
                Progress::Wanting(count) => count,
                _ => 0,
            }),
    {
        if self.arrived.len() < HEADER_SIZE {
            return HEADER_SIZE - self.arrived.len();
        }
        let length: usize = self.length();
        if length == 0 || length > MAX_MESSAGE_SIZE {
            return 0;
        }
        if self.arrived.len() < HEADER_SIZE + length {
            HEADER_SIZE + length - self.arrived.len()
        } else {
            0
        }
    }

    /// Takes what the channel gave when it was asked for as many bytes as are wanted.
    ///
    /// `waited` says whether the channel was to wait for bytes. If it was not, and the message
    /// has not begun, no bytes mean that there is no message; otherwise they mean that the peer
    /// has gone.
    pub fn accept(
        &mut self,
        received: Result<Vec<u8>, ControlChannelReceiveError>,
        waited: bool,
    ) -> (reception: Reception)
        requires
            received matches Ok(bytes) ==> progress(old(self)@) matches Progress::Wanting(count)
                && bytes@.len() <= count,
        ensures
            final(self)@ == (match received {
                Ok(bytes) => old(self)@ + bytes@,
                Err(_) => old(self)@,
            }),
            match received {
                Err(error) => reception == Reception::Fault(ReceiveFault::Channel(error)),
                Ok(bytes) => if bytes@.len() == 0 {
                    reception == (if !waited && old(self)@.len() == 0 {
                        Reception::Nothing
                    } else {
                        Reception::Fault(ReceiveFault::Ended)
                    })
                } else {
                    match progress(final(self)@) {
                        Progress::Wanting(_) => reception == Reception::Pending,
                        Progress::Malformed => reception == Reception::Fault(
                            ReceiveFault::Malformed,
                        ),
                        Progress::Complete(payload) => reception matches Reception::Complete(bytes)
                            && bytes@ == payload,
                    }
                },
            },
    {
        let bytes = match received {
            Ok(bytes) => bytes,
            Err(error) => {
                return Reception::Fault(ReceiveFault::Channel(error));
            },
        };
        if bytes.len() == 0 {
            assert(old(self)@ + bytes@ =~= old(self)@);
            if !waited && self.arrived.len() == 0 {
                return Reception::Nothing;
            }
            return Reception::Fault(ReceiveFault::Ended);
        }
        self.arrived.extend_from_slice(bytes.as_slice());
        assert(self@ =~= old(self)@ + bytes@);
        if self.arrived.len() < HEADER_SIZE {
            return Reception::Pending;
        }
        let length: usize = self.length();
        if length == 0 || length > MAX_MESSAGE_SIZE {
            return Reception::Fault(ReceiveFault::Malformed);
        }
        if self.arrived.len() < HEADER_SIZE + length {
            return Reception::Pending;
        }
        let mut payload: Vec<u8> = Vec::with_capacity(length);
        payload.extend_from_slice(
            vstd::slice::slice_subrange(
                self.arrived.as_slice(),
                HEADER_SIZE,
                HEADER_SIZE + length,
            ),
        );
        assert(payload@ =~= self@.subrange(HEADER_SIZE as int, HEADER_SIZE + length));
        Reception::Complete(payload)
    }
}

/// Creates a new buffer with the initial capacity for receiving messages.
pub fn new_receive_buffer() -> (buffer: Vec<u8>)
    ensures
        buffer@.len() == 0,
{
    Vec::with_capacity(INITIAL_BUFFER_CAPACITY)
}

/// Maps a send error to a server error: whatever the channel reports, the send operation failed.
pub fn map_send_error_server(error: ControlChannelSendError) -> (mapped: IamServerError)
    ensures
        mapped == IamServerError::SendFailed,
{
    IamServerError::SendFailed
}

/// Maps a receive error to a server error: whatever the channel reports, the receive operation
/// failed.
pub fn map_receive_error_server(error: ControlChannelReceiveError) -> (mapped: IamServerError)
    ensures
        mapped == IamServerError::ReceiveFailed,
{
    IamServerError::ReceiveFailed
}

/// Maps a send error to a client error: whatever the channel reports, the send operation failed.
pub fn map_send_error_client(error: ControlChannelSendError) -> (mapped: IamClientError)
    ensures
        mapped == IamClientError::SendFailed,
{
    IamClientError::SendFailed
}

/// Maps a receive error to a client error: whatever the channel reports, the receive operation
/// failed.
pub fn map_receive_error_client(error: ControlChannelReceiveError) -> (mapped: IamClientError)
    ensures
        mapped == IamClientError::ReceiveFailed,
{
    IamClientError::ReceiveFailed
}

/// Maps the reason why there is no message to a server error.
pub fn map_fault_server(fault: ReceiveFault) -> (mapped: IamServerError)
    ensures
        mapped == (match fault {
            ReceiveFault::Channel(_) => IamServerError::ReceiveFailed,
            ReceiveFault::Ended => IamServerError::ReceiveFailed,
            ReceiveFault::Malformed => IamServerError::SerializationError,
        }),
{
    match fault {
        ReceiveFault::Channel(error) => map_receive_error_server(error),
        ReceiveFault::Ended => IamServerError::ReceiveFailed,
        ReceiveFault::Malformed => IamServerError::SerializationError,
    }
}

/// Maps the reason why there is no message to a client error.
pub fn map_fault_client(fault: ReceiveFault) -> (mapped: IamClientError)
    ensures
        mapped == (match fault {
            ReceiveFault::Channel(_) => IamClientError::ReceiveFailed,
            ReceiveFault::Ended => IamClientError::ReceiveFailed,
            ReceiveFault::Malformed => IamClientError::SerializationError,
        }),
{
    match fault {
        ReceiveFault::Channel(error) => map_receive_error_client(error),
        ReceiveFault::Ended => IamClientError::ReceiveFailed,
        ReceiveFault::Malformed => IamClientError::SerializationError,
    }
}

/// Checks the handles that the server received: that the channel gave some.
pub fn handles_from_client<H, E>(received: Result<Option<Vec<H>>, E>) -> (handles: Result<
    Vec<H>,
    IamServerError,
>)
    ensures
        handles == (match received {
            Ok(Some(given)) => Ok(given),
            _ => Err(IamServerError::HandlePassingFailed),
        }),
{
    match received {
        Ok(Some(given)) => Ok(given),
        _ => Err(IamServerError::HandlePassingFailed),
    }
}

/// Checks the handles that the client received: that the channel gave some.
pub fn handles_from_server<H, E>(received: Result<Option<Vec<H>>, E>) -> (handles: Result<
    Vec<H>,
    IamClientError,
>)
    ensures
        handles == (match received {
            Ok(Some(given)) => Ok(given),
            _ => Err(IamClientError::HandleReceiveFailed),
        }),
{
    match received {
        Ok(Some(given)) => Ok(given),
        _ => Err(IamClientError::HandleReceiveFailed),
    }
}

/// The header of a length stands for that length.
proof fn lemma_header(length: int)
    requires
        0 <= length <= u32::MAX,
    ensures
        length_in(header_of(length)) == length,
        header_of(length).len() == HEADER_SIZE,
{
    assert(length / 65536 == length / 256 / 256);
    assert(length / 16777216 == length / 65536 / 256);
}

/// What was framed is received: a frame that has arrived is the message that was sent, whatever
/// the pieces it came in, since a reader goes by all the bytes that have arrived. Only the frame
/// of an empty message is refused.
pub proof fn law_frame_is_received(payload: Seq<u8>)
    requires
        payload.len() <= MAX_MESSAGE_SIZE,
    ensures
        progress(frame_of(payload)) == (if payload.len() == 0 {
            Progress::Malformed
        } else {
            Progress::Complete(payload)
        }),
{
    lemma_header(payload.len() as int);
    assert(frame_of(payload).take(HEADER_SIZE as int) =~= header_of(payload.len() as int));
    assert(frame_of(payload).subrange(
        HEADER_SIZE as int,
        HEADER_SIZE + payload.len(),
    ) =~= payload);
}

/// A message is not received before its last byte: while a frame is arriving a reader wants
/// more, and never more than the rest of that frame, so that the frame that follows is left for
/// the next reader.
pub proof fn law_frame_is_received_whole(payload: Seq<u8>, count: int)
    requires
        0 < payload.len() <= MAX_MESSAGE_SIZE,
        0 <= count < frame_of(payload).len(),
    ensures
        progress(frame_of(payload).take(count)) matches Progress::Wanting(wanted) && 0 < wanted
            <= frame_of(payload).len() - count,
{
    lemma_header(payload.len() as int);
    let arrived = frame_of(payload).take(count);
    if count >= HEADER_SIZE {
        assert forall|i: int| 0 <= i < HEADER_SIZE implies arrived[i] == header_of(
            payload.len() as int,
        )[i] by {}
        assert(length_in(arrived) == payload.len());
    }
}

/// No message beyond the maximum is received, and no empty one.
pub proof fn law_messages_are_bounded(arrived: Seq<u8>)
    ensures
        progress(arrived) matches Progress::Complete(payload) ==> 0 < payload.len()
            <= MAX_MESSAGE_SIZE,
        progress(arrived) matches Progress::Wanting(wanted) ==> 0 < wanted && arrived.len() + wanted
            <= HEADER_SIZE + MAX_MESSAGE_SIZE,
{
}

/// A frame is four bytes, which give the length of the payload with the least significant first, and
/// the payload.
pub proof fn law_frames_begin_with_the_length(payload: Seq<u8>)
    requires
        payload.len() <= 16777216,
    ensures
        ({
            let framed = frame_of(payload);
            &&& framed.len() == 4 + payload.len()
            &&& framed[0] + 256 * framed[1] + 256 * 256 * framed[2] + 256 * 256 * 256 * framed[3]
                == payload.len()
            &&& framed.skip(4) == payload
        }),
{
    lemma_header(payload.len() as int);
    assert(frame_of(payload).skip(4) =~= payload);
    let header = header_of(payload.len() as int);
    assert(frame_of(payload)[0] == header[0]);
    assert(frame_of(payload)[1] == header[1]);
    assert(frame_of(payload)[2] == header[2]);
    assert(frame_of(payload)[3] == header[3]);
}

/// What has arrived is understood by its first four bytes: before they are there the rest of them is
/// wanted; a length of zero, or beyond 16 MB, is no message; otherwise the payload is wanted until it
/// is there, and is then what follows the four bytes.
pub proof fn law_arrivals_are_understood(arrived: Seq<u8>)
    ensures
        ({
            let length = arrived[0] + 256 * arrived[1] + 65536 * arrived[2] + 16777216 * arrived[3];
            match progress(arrived) {
                Progress::Wanting(count) => {
                    ||| arrived.len() < 4 && count == 4 - arrived.len()
                    ||| arrived.len() >= 4 && 0 < length <= 16777216 && arrived.len() < 4 + length
                        && count == 4 + length - arrived.len()
                },
                Progress::Malformed => arrived.len() >= 4 && (length == 0 || length > 16777216),
                Progress::Complete(payload) => {
                    &&& arrived.len() >= 4
                    &&& 0 < length <= 16777216
                    &&& payload.len() == length
                    &&& arrived.len() >= 4 + length
                    &&& forall|i: int|
                        0 <= i < length ==> #[trigger] payload[i] == arrived[4 + i]
                },
            }
        }),
        MAX_MESSAGE_SIZE == 16777216,
        HEADER_SIZE == 4,
{
}

} // verus!
