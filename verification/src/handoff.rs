//! The rest of a handoff, once every region is registered: the metadata is serialized and framed,
//! the payload goes to the peer with the descriptor, the peer acknowledges it, and the servicing of
//! its requests starts.

use vstd::prelude::*;
use vstd::string::StringExecFns;

use crate::cooperation::{CooperationSession, SessionView};
use crate::errno::Errnos;
use crate::error::UffdHandoffError;
use crate::metadata::{
    self, cooperation_regions, describe_handoff, frame_document, UffdHandoffMetadata,
    UffdHandoffRegionSource, UFFD_HANDOFF_ACK,
};
use crate::text::{self, append_decimal};

verus! {

/// The regions that were registered, and the truth about how.
pub ghost struct RegisteredView {
    pub regions: Seq<UffdHandoffRegionSource>,
    pub user_mode_only: bool,
    pub write_protect: bool,
}

/// A handoff whose regions are all registered.
#[derive(Debug)]
pub struct RegisteredRegions {
    regions: Vec<UffdHandoffRegionSource>,
    user_mode_only: bool,
    write_protect: bool,
}

impl View for RegisteredRegions {
    type V = RegisteredView;

    closed spec fn view(&self) -> RegisteredView {
        RegisteredView {
            regions: self.regions@,
            user_mode_only: self.user_mode_only,
            write_protect: self.write_protect,
        }
    }
}

/// The regions of a handoff, the metadata that describe it, and the payload that carries them.
pub ghost struct HandoffView {
    pub regions: Seq<UffdHandoffRegionSource>,
    pub metadata: UffdHandoffMetadata,
    pub payload: Seq<u8>,
}

/// A handoff that waits for its metadata to be serialized.
#[derive(Debug)]
pub struct DescribedHandoff {
    regions: Vec<UffdHandoffRegionSource>,
    metadata: UffdHandoffMetadata,
}

impl View for DescribedHandoff {
    type V = HandoffView;

    closed spec fn view(&self) -> HandoffView {
        HandoffView {
            regions: self.regions@,
            metadata: self.metadata,
            payload: Seq::empty(),
        }
    }
}

/// A handoff that waits for the connection to the peer.
#[derive(Debug)]
pub struct FramedHandoff {
    regions: Vec<UffdHandoffRegionSource>,
    metadata: UffdHandoffMetadata,
    payload: Vec<u8>,
}

impl View for FramedHandoff {
    type V = HandoffView;

    closed spec fn view(&self) -> HandoffView {
        HandoffView {
            regions: self.regions@,
            metadata: self.metadata,
            payload: self.payload@,
        }
    }
}

/// A handoff that waits for its payload to be sent.
#[derive(Debug)]
pub struct ConnectedHandoff {
    handoff: FramedHandoff,
}

impl View for ConnectedHandoff {
    type V = HandoffView;

    closed spec fn view(&self) -> HandoffView {
        self.handoff@
    }
}

/// A handoff that waits for the acknowledgement.
#[derive(Debug)]
pub struct SentHandoff {
    handoff: FramedHandoff,
}

impl View for SentHandoff {
    type V = HandoffView;

    closed spec fn view(&self) -> HandoffView {
        self.handoff@
    }
}

/// A handoff that waits for the servicing of requests to start.
#[derive(Debug)]
pub struct AcknowledgedHandoff {
    handoff: FramedHandoff,
}

impl View for AcknowledgedHandoff {
    type V = HandoffView;

    closed spec fn view(&self) -> HandoffView {
        self.handoff@
    }
}

/// What `sendmsg(2)` came to.
#[derive(Debug)]
pub enum SendOutcome {
    /// The whole payload was sent.
    Whole,
    /// The platform holds the error.
    OsError,
    /// Fewer bytes were sent; the message says how many.
    Short(String),
}

/// The message about a payload that was not sent whole.
pub open spec fn short_send_message(sent: nat, len: nat) -> Seq<char> {
    "short sendmsg: sent "@ + text::decimal(sent) + " of "@ + text::decimal(len)
        + " payload bytes"@
}

/// Whether `sendmsg(2)`, which returned this number, took the whole payload.
pub open spec fn sent_whole(returned: isize, payload: Seq<u8>) -> bool {
    returned == payload.len()
}

/// Whether the peer acknowledged the payload: a byte was read, and it is the right one.
pub open spec fn is_acknowledgement(count: usize, ack: u8) -> bool {
    count > 0 && ack == UFFD_HANDOFF_ACK
}

/// The error that `std::io::Error::new` makes of the kind `WriteZero` and a message.
pub uninterp spec fn write_zero_error(message: Seq<char>) -> std::io::Error;

/// Calls `std::io::Error::new` with the kind `std::io::ErrorKind::WriteZero` and `message`.
///
/// Claimed is that the error is determined by the message. An error of `std::io` is opaque here, so
/// its kind and its text are not spoken of otherwise.
#[verifier::external_body]
fn new_write_zero_error(message: String) -> (error: std::io::Error)
    ensures
        error == write_zero_error(message@),
{
    std::io::Error::new(std::io::ErrorKind::WriteZero, message)
}

/// The error of a payload that was not sent, or not sent whole.
pub open spec fn send_error(returned: isize, os_error: std::io::Error, len: nat) -> Option<
    std::io::Error,
> {
    if returned < 0 {
        Some(os_error)
    } else if returned == len {
        None
    } else {
        Some(write_zero_error(short_send_message(returned as nat, len)))
    }
}

/// Tells what `sendmsg(2)`, which returned this number for a payload of `len` bytes, came to.
pub fn send_outcome(returned: isize, len: usize) -> (outcome: SendOutcome)
    ensures
        if returned < 0 {
            outcome is OsError
        } else if returned == len {
            outcome is Whole
        } else {
            outcome matches SendOutcome::Short(message) && message@ == short_send_message(
                returned as nat,
                len as nat,
            )
        },
{
    if returned < 0 {
        SendOutcome::OsError
    } else if returned as usize == len {
        SendOutcome::Whole
    } else {
        let mut message = String::from_str("short sendmsg: sent ");
        append_decimal(&mut message, returned as u64);
        message.append(" of ");
        append_decimal(&mut message, len as u64);
        message.append(" payload bytes");
        SendOutcome::Short(message)
    }
}

impl RegisteredRegions {
    pub(crate) fn new(
        regions: Vec<UffdHandoffRegionSource>,
        user_mode_only: bool,
        write_protect: bool,
    ) -> (registered: RegisteredRegions)
        ensures
            registered@ == (RegisteredView { regions: regions@, user_mode_only, write_protect }),
    {
        RegisteredRegions { regions, user_mode_only, write_protect }
    }

    /// Describes the handoff, of the process with this identifier.
    pub fn describe(self, pid: u32) -> (described: DescribedHandoff)
        ensures
            described@.regions == self@.regions,
            metadata::describes(
                described@.metadata,
                self@.regions,
                pid,
                self@.user_mode_only,
                self@.write_protect,
            ),
    {
        let metadata = describe_handoff(
            self.regions.as_slice(),
            pid,
            self.user_mode_only,
            self.write_protect,
        );
        DescribedHandoff { regions: self.regions, metadata }
    }
}

impl DescribedHandoff {
    /// The metadata that are to be serialized.
    pub fn metadata(&self) -> (metadata: &UffdHandoffMetadata)
        ensures
            *metadata == self@.metadata,
    {
        &self.metadata
    }

    /// Takes the serialized metadata.
    pub fn serialized<U>(self, document: Result<Vec<u8>, serde_json::Error>) -> (framed: Result<
        FramedHandoff,
        UffdHandoffError<U>,
    >)
        ensures
            match document {
                Ok(document) => framed matches Ok(framed) && framed@ == (HandoffView {
                    payload: metadata::payload_of(document@),
                    ..self@
                }),
                Err(error) => framed == Err::<FramedHandoff, UffdHandoffError<U>>(
                    UffdHandoffError::Serialize(error),
                ),
            },
    {
        match document {
            Ok(document) => Ok(
                FramedHandoff {
                    regions: self.regions,
                    metadata: self.metadata,
                    payload: frame_document(document.as_slice()),
                },
            ),
            Err(error) => Err(UffdHandoffError::Serialize(error)),
        }
    }
}

impl FramedHandoff {
    /// Takes what connecting to the socket at `path` came to, and hands the connection back.
    pub fn connected<U, S>(self, path: String, outcome: Result<S, std::io::Error>) -> (connected:
        Result<(ConnectedHandoff, S), UffdHandoffError<U>>)
        ensures
            match outcome {
                Ok(stream) => {
                    &&& connected matches Ok((handoff, same))
                    &&& handoff@ == self@
                    &&& same == stream
                },
                Err(source) => connected == Err::<(ConnectedHandoff, S), UffdHandoffError<U>>(
                    UffdHandoffError::SocketConnect { path, source },
                ),
            },
    {
        match outcome {
            Ok(stream) => Ok((ConnectedHandoff { handoff: self }, stream)),
            Err(source) => Err(UffdHandoffError::SocketConnect { path, source }),
        }
    }
}

impl ConnectedHandoff {
    /// The payload that is to be sent, together with the descriptor.
    pub fn payload(&self) -> (payload: &[u8])
        ensures
            payload@ == self@.payload,
    {
        self.handoff.payload.as_slice()
    }

    /// Takes what `sendmsg(2)` returned for the payload, and the error that the platform held then.
    pub fn sent<U>(self, returned: isize, os_error: std::io::Error) -> (sent: Result<
        SentHandoff,
        UffdHandoffError<U>,
    >)
        ensures
            if returned < 0 {
                sent == Err::<SentHandoff, UffdHandoffError<U>>(
                    UffdHandoffError::SocketSend(os_error),
                )
            } else if sent_whole(returned, self@.payload) {
                sent matches Ok(sent) && sent@ == self@
            } else {
                sent == Err::<SentHandoff, UffdHandoffError<U>>(
                    UffdHandoffError::SocketSend(
                        write_zero_error(
                            short_send_message(returned as nat, self@.payload.len()),
                        ),
                    ),
                )
            },
    {
        match send_outcome(returned, self.handoff.payload.len()) {
            SendOutcome::Whole => Ok(SentHandoff { handoff: self.handoff }),
            SendOutcome::OsError => Err(UffdHandoffError::SocketSend(os_error)),
            SendOutcome::Short(message) => Err(
                UffdHandoffError::SocketSend(new_write_zero_error(message)),
            ),
        }
    }
}

impl SentHandoff {
    /// Takes what reading the acknowledgement came to: how many bytes were read, and the byte.
    pub fn acknowledged<U>(self, read: Result<usize, std::io::Error>, ack: u8) -> (acknowledged:
        Result<AcknowledgedHandoff, UffdHandoffError<U>>)
        ensures
            match read {
                Err(error) => acknowledged == Err::<AcknowledgedHandoff, UffdHandoffError<U>>(
                    UffdHandoffError::AckRead(error),
                ),
                Ok(count) => if count == 0 {
                    acknowledged == Err::<AcknowledgedHandoff, UffdHandoffError<U>>(
                        UffdHandoffError::AckEof,
                    )
                } else if !is_acknowledgement(count, ack) {
                    acknowledged == Err::<AcknowledgedHandoff, UffdHandoffError<U>>(
                        UffdHandoffError::AckUnexpected(ack),
                    )
                } else {
                    acknowledged matches Ok(acknowledged) && acknowledged@ == self@
                },
            },
    {
        match read {
            Err(error) => Err(UffdHandoffError::AckRead(error)),
            Ok(count) => if count == 0 {
                Err(UffdHandoffError::AckEof)
            } else if ack != UFFD_HANDOFF_ACK {
                Err(UffdHandoffError::AckUnexpected(ack))
            } else {
                Ok(AcknowledgedHandoff { handoff: self.handoff })
            },
        }
    }
}

/// A session that serves requests on the regions that were handed off, before the first of them.
pub open spec fn session_of(
    regions: Seq<UffdHandoffRegionSource>,
    errnos: Errnos,
) -> SessionView {
    SessionView {
        errnos,
        regions: regions.map_values(
            |source: UffdHandoffRegionSource| metadata::cooperation_region(source),
        ),
        expected_sequence: 1,
    }
}

impl AcknowledgedHandoff {
    /// The session that serves the peer's requests on the regions that were handed off.
    pub fn session(&self, errnos: Errnos) -> (session: CooperationSession)
        ensures
            session@ == session_of(self@.regions, errnos),
    {
        CooperationSession::new(errnos, cooperation_regions(self.handoff.regions.as_slice()))
    }

    /// Ends the handoff, once the thread that runs the session was started.
    pub fn started<U>(self, outcome: Result<(), std::io::Error>) -> (metadata: Result<
        UffdHandoffMetadata,
        UffdHandoffError<U>,
    >)
        ensures
            metadata == (match outcome {
                Ok(()) => Ok::<UffdHandoffMetadata, UffdHandoffError<U>>(self@.metadata),
                Err(error) => Err(UffdHandoffError::CooperationThreadSpawn(error)),
            }),
    {
        match outcome {
            Ok(()) => Ok(self.handoff.metadata),
            Err(error) => Err(UffdHandoffError::CooperationThreadSpawn(error)),
        }
    }
}

} // verus!
