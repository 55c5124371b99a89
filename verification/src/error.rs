//! The ways in which a handoff fails.

use vstd::prelude::*;
use vstd::string::StringExecFns;

use crate::text::{self, append_decimal, append_hexadecimal};

verus! {

/// An error of the standard library's I/O, carried along unread.
#[verifier::external_type_specification]
#[verifier::external_body]
pub struct ExIoError(std::io::Error);

/// An error of `serde_json`, carried along unread.
#[verifier::external_type_specification]
#[verifier::external_body]
pub struct ExJsonError(serde_json::Error);

/// Why a handoff failed. `U` is the type of the errors that creating a userfaultfd descriptor and
/// registering a range with it give.
#[derive(Debug)]
#[allow(inconsistent_fields)]
pub enum UffdHandoffError<U> {
    NoEligibleRegions,
    UffdCreate(U),
    UffdMinorCreate(std::io::Error),
    UffdRegister { host_virt_addr: usize, len: u64, source: U },
    SocketConnect { path: String, source: std::io::Error },
    SocketSend(std::io::Error),
    AckEof,
    AckRead(std::io::Error),
    AckUnexpected(u8),
    CooperationThreadSpawn(std::io::Error),
    Serialize(serde_json::Error),
}

/// The message of an error, without that of its source.
pub open spec fn message_of<U>(error: UffdHandoffError<U>) -> Seq<char> {
    match error {
        UffdHandoffError::NoEligibleRegions =>
            "guest RAM has no eligible regions for userfaultfd handoff"@,
        UffdHandoffError::UffdCreate(_) => "failed to create userfaultfd descriptor"@,
        UffdHandoffError::UffdMinorCreate(_) =>
            "failed to create minor-fault-capable userfaultfd descriptor"@,
        UffdHandoffError::UffdRegister { host_virt_addr, len, .. } =>
            "failed to register guest RAM range (host_virt_addr "@ + text::hexadecimal(
            host_virt_addr as nat,
        ) + ", len "@ + text::decimal(len as nat) + ") with userfaultfd"@,
        UffdHandoffError::SocketConnect { path, .. } =>
            "failed to connect to uffd handoff socket "@ + path@,
        UffdHandoffError::SocketSend(_) => "failed to send uffd handoff payload"@,
        UffdHandoffError::AckEof =>
            "uffd handoff peer closed the socket before acknowledging the payload"@,
        UffdHandoffError::AckRead(_) => "failed to read uffd handoff acknowledgement"@,
        UffdHandoffError::AckUnexpected(ack) =>
            "uffd handoff peer returned unexpected acknowledgement byte "@ + text::hexadecimal(
            ack as nat,
        ),
        UffdHandoffError::CooperationThreadSpawn(_) =>
            "failed to spawn the uffd cooperation control thread"@,
        UffdHandoffError::Serialize(_) => "failed to serialize uffd handoff metadata"@,
    }
}

impl<U> UffdHandoffError<U> {
    /// The message for the user.
    pub fn message(&self) -> (message: String)
        ensures
            message@ == message_of(*self),
    {
        match self {
            UffdHandoffError::NoEligibleRegions => String::from_str(
                "guest RAM has no eligible regions for userfaultfd handoff",
            ),
            UffdHandoffError::UffdCreate(_) => String::from_str(
                "failed to create userfaultfd descriptor",
            ),
            UffdHandoffError::UffdMinorCreate(_) => String::from_str(
                "failed to create minor-fault-capable userfaultfd descriptor",
            ),
            UffdHandoffError::UffdRegister { host_virt_addr, len, .. } => {
                let mut message = String::from_str(
                    "failed to register guest RAM range (host_virt_addr ",
                );
                append_hexadecimal(&mut message, *host_virt_addr as u64);
                message.append(", len ");
                append_decimal(&mut message, *len);
                message.append(") with userfaultfd");
                message
            },
            UffdHandoffError::SocketConnect { path, .. } => {
                let mut message = String::from_str("failed to connect to uffd handoff socket ");
                message.append(path.as_str());
                message
            },
            UffdHandoffError::SocketSend(_) => String::from_str(
                "failed to send uffd handoff payload",
            ),
            UffdHandoffError::AckEof => String::from_str(
                "uffd handoff peer closed the socket before acknowledging the payload",
            ),
            UffdHandoffError::AckRead(_) => String::from_str(
                "failed to read uffd handoff acknowledgement",
            ),
            UffdHandoffError::AckUnexpected(ack) => {
                let mut message = String::from_str(
                    "uffd handoff peer returned unexpected acknowledgement byte ",
                );
                append_hexadecimal(&mut message, *ack as u64);
                message
            },
            UffdHandoffError::CooperationThreadSpawn(_) => String::from_str(
                "failed to spawn the uffd cooperation control thread",
            ),
            UffdHandoffError::Serialize(_) => String::from_str(
                "failed to serialize uffd handoff metadata",
            ),
        }
    }
}

} // verus!
