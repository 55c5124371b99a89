//! What the steps of a handoff lead to.
//!
//! Each law is about the result of one step, whatever the platform and the peer answered.

use vstd::prelude::*;

use crate::cooperation::CooperationSession;
use crate::creation::{
    begin_uffd_handoff, minor_open_flags, Creation, DescriptorOptions,
    MinorCreation, MinorNegotiation, PlainCreation, UffdioApi,
};
use crate::errno::Errnos;
use crate::error::UffdHandoffError;
use crate::handoff::{
    send_outcome, write_zero_error, AcknowledgedHandoff, ConnectedHandoff, DescribedHandoff,
    FramedHandoff, RegisteredRegions, SendOutcome, SentHandoff,
};
use crate::laws::frames::law_payload_is_length_and_document;
use crate::laws::handoffs::{
    law_metadata_have_every_field_of_every_region, law_minor_descriptor_is_asked_for_in_this_way,
    law_session_has_every_region,
};
use crate::metadata::{UffdHandoffMetadata, UffdHandoffRegionSource};
use crate::registration::{RegisterMode, RegisterRequest, Registration, RegistrationStep};
use crate::text::{decimal, hexadecimal};

verus! {

/// A handoff without regions does not begin. Any other begins with all of its regions, and with the
/// kind of descriptor that is asked for, for all faults.
pub proof fn law_handoff_begins_with_all_regions<U>(
    regions: Vec<UffdHandoffRegionSource>,
    minor: bool,
    begun: Result<Creation, UffdHandoffError<U>>,
)
    requires
        call_ensures(begin_uffd_handoff::<U>, (regions, minor), begun),
    ensures
        match begun {
            Err(error) => regions@.len() == 0 && error is NoEligibleRegions,
            Ok(Creation::Plain(creation)) => {
                &&& regions@.len() > 0 && !minor
                &&& creation@.regions == regions@
                &&& !creation@.user_mode_only
            },
            Ok(Creation::Minor(creation)) => {
                &&& regions@.len() > 0 && minor
                &&& creation@.creation.regions == regions@
                &&& !creation@.creation.user_mode_only
                &&& creation@.close_on_exec == 524_288 || creation@.close_on_exec == 4_194_304
            },
        },
{
}

/// A descriptor is asked for that is closed on `exec` and blocks, and of which nothing is required.
pub proof fn law_options_of_a_descriptor(creation: &PlainCreation, options: DescriptorOptions)
    requires
        call_ensures(PlainCreation::options, (creation,), options),
    ensures
        options.close_on_exec,
        !options.non_blocking,
        options.user_mode_only == creation@.user_mode_only,
        options.features == 0,
        options.ioctls == 0,
{
}

/// With a descriptor, the registration starts with the first region, for missing-page and
/// write-protect faults.
pub proof fn law_created_descriptor_leads_to_registration(
    creation: PlainCreation,
    registration: Registration,
)
    requires
        call_ensures(PlainCreation::created, (creation,), registration),
    ensures
        registration@.regions == creation@.regions,
        registration@.user_mode_only == creation@.user_mode_only,
        registration@.mode == RegisterMode::MissingWriteProtect,
        registration@.index == 0,
{
}

/// After a descriptor for all faults is refused, one for user-mode faults alone is tried, for the
/// same regions. After that is refused, the handoff fails with its error.
pub proof fn law_refused_descriptor_is_tried_once_more<U>(
    creation: PlainCreation,
    error: U,
    next: Result<PlainCreation, UffdHandoffError<U>>,
)
    requires
        call_ensures(PlainCreation::refused::<U>, (creation, error), next),
    ensures
        creation@.user_mode_only ==> next == Err::<PlainCreation, UffdHandoffError<U>>(
            UffdHandoffError::UffdCreate(error),
        ),
        !creation@.user_mode_only ==> {
            &&& next matches Ok(retry)
            &&& retry@.user_mode_only
            &&& retry@.regions == creation@.regions
        },
{
}

/// The flags to open a descriptor with are the one that closes it on `exec`, and with it the lowest
/// bit where it is for user-mode faults alone.
pub proof fn law_flags_to_open_with(close_on_exec: i32, user_mode_only: bool, flags: i32)
    requires
        call_ensures(minor_open_flags, (close_on_exec, user_mode_only), flags),
    ensures
        user_mode_only ==> flags == close_on_exec | 1,
        user_mode_only && close_on_exec & 1 == 0 ==> flags == close_on_exec + 1,
        !user_mode_only ==> flags == close_on_exec,
{
    assert(close_on_exec & 1 == 0 ==> close_on_exec | 1 == close_on_exec + 1) by (bit_vector);
}

/// A descriptor with minor faults is opened with these flags.
pub proof fn law_flags_of_a_minor_descriptor(creation: &MinorCreation, flags: i32)
    requires
        creation@.close_on_exec == 524_288 || creation@.close_on_exec == 4_194_304,
        call_ensures(MinorCreation::open_flags, (creation,), flags),
    ensures
        creation@.creation.user_mode_only ==> flags == creation@.close_on_exec + 1,
        !creation@.creation.user_mode_only ==> flags == creation@.close_on_exec,
{
    law_minor_descriptor_is_asked_for_in_this_way(
        creation@.close_on_exec,
        creation@.creation.user_mode_only,
    );
}

/// A descriptor that was opened keeps the regions and how it was opened.
pub proof fn law_opened_descriptor_is_negotiated(
    creation: MinorCreation,
    negotiation: MinorNegotiation,
)
    requires
        call_ensures(MinorCreation::opened, (creation,), negotiation),
    ensures
        negotiation@.creation.regions == creation@.creation.regions,
        negotiation@.creation.user_mode_only == creation@.creation.user_mode_only,
        negotiation@.close_on_exec == creation@.close_on_exec,
{
}

/// After a descriptor with minor faults for all faults cannot be opened, one for user-mode faults
/// alone is tried, for the same regions and with the same flag. After that cannot be, the handoff
/// fails with its error.
pub proof fn law_unopened_descriptor_is_tried_once_more<U>(
    creation: MinorCreation,
    error: std::io::Error,
    next: Result<MinorCreation, UffdHandoffError<U>>,
)
    requires
        call_ensures(MinorCreation::refused::<U>, (creation, error), next),
    ensures
        creation@.creation.user_mode_only ==> next == Err::<MinorCreation, UffdHandoffError<U>>(
            UffdHandoffError::UffdMinorCreate(error),
        ),
        !creation@.creation.user_mode_only ==> {
            &&& next matches Ok(retry)
            &&& retry@.creation.user_mode_only
            &&& retry@.creation.regions == creation@.creation.regions
            &&& retry@.close_on_exec == creation@.close_on_exec
        },
{
}

/// A descriptor with minor faults is asked for API 0xAA, with missing-page and minor faults on
/// shared memory: bits 3 and 9.
pub proof fn law_features_of_a_minor_descriptor(negotiation: &MinorNegotiation, api: UffdioApi)
    requires
        call_ensures(MinorNegotiation::api, (negotiation,), api),
    ensures
        api.api == 0xAA,
        api.features == 8 + 512,
        api.ioctls == 0,
{
    law_minor_descriptor_is_asked_for_in_this_way(524_288, false);
}

/// With a descriptor with minor faults, the registration starts with the first region, for
/// missing-page and minor faults.
pub proof fn law_negotiated_descriptor_leads_to_registration(
    negotiation: MinorNegotiation,
    registration: Registration,
)
    requires
        call_ensures(MinorNegotiation::negotiated, (negotiation,), registration),
    ensures
        registration@.regions == negotiation@.creation.regions,
        registration@.user_mode_only == negotiation@.creation.user_mode_only,
        registration@.mode == RegisterMode::MissingMinor,
        registration@.index == 0,
{
}

/// After the features of a descriptor for all faults cannot be enabled, one for user-mode faults
/// alone is tried, for the same regions and with the same flag. After that cannot be, the handoff
/// fails with its error.
pub proof fn law_refused_features_are_tried_once_more<U>(
    negotiation: MinorNegotiation,
    error: std::io::Error,
    next: Result<MinorCreation, UffdHandoffError<U>>,
)
    requires
        call_ensures(MinorNegotiation::refused::<U>, (negotiation, error), next),
    ensures
        negotiation@.creation.user_mode_only ==> next == Err::<MinorCreation, UffdHandoffError<U>>(
            UffdHandoffError::UffdMinorCreate(error),
        ),
        !negotiation@.creation.user_mode_only ==> {
            &&& next matches Ok(retry)
            &&& retry@.creation.user_mode_only
            &&& retry@.creation.regions == negotiation@.creation.regions
            &&& retry@.close_on_exec == negotiation@.close_on_exec
        },
{
}

/// A request is for the whole of the region that is next, for the faults of this registration.
pub proof fn law_request_is_for_the_whole_region(
    registration: &Registration,
    request: RegisterRequest,
)
    requires
        call_ensures(Registration::request, (registration,), request),
    ensures
        ({
            let region = registration@.regions[registration@.index];
            &&& 0 <= registration@.index < registration@.regions.len()
            &&& request.host_virt_addr == region.host_virt_addr
            &&& request.len == region.len
            &&& request.mode == registration@.mode
        }),
{
}

/// A region that is registered is followed by the next, for the same faults. The last ends the
/// registration of all, with write protection exactly if they were registered for it.
pub proof fn law_registered_region_is_followed_by_the_next(
    registration: Registration,
    step: RegistrationStep,
)
    requires
        call_ensures(Registration::registered, (registration,), step),
    ensures
        match step {
            RegistrationStep::Next(next) => {
                &&& next@.index == registration@.index + 1
                &&& next@.index < next@.regions.len()
                &&& next@.regions == registration@.regions
                &&& next@.user_mode_only == registration@.user_mode_only
                &&& next@.mode == registration@.mode
            },
            RegistrationStep::Complete(all) => {
                &&& registration@.index + 1 >= registration@.regions.len()
                &&& all@.regions == registration@.regions
                &&& all@.user_mode_only == registration@.user_mode_only
                &&& (all@.write_protect <==> registration@.mode
                    == RegisterMode::MissingWriteProtect)
            },
        },
{
}

/// Where a region is refused with write protection, all regions are registered again from the
/// first, for missing-page faults alone. Any other refusal ends the handoff, and the error names
/// the region.
pub proof fn law_refused_region_gives_up_protection_or_fails<U>(
    registration: Registration,
    source: U,
    next: Result<Registration, UffdHandoffError<U>>,
)
    requires
        call_ensures(Registration::refused::<U>, (registration, source), next),
    ensures
        registration@.mode == RegisterMode::MissingWriteProtect ==> {
            &&& next matches Ok(retry)
            &&& retry@.mode == RegisterMode::Missing
            &&& retry@.index == 0
            &&& retry@.regions == registration@.regions
            &&& retry@.user_mode_only == registration@.user_mode_only
        },
        registration@.mode != RegisterMode::MissingWriteProtect ==> next == Err::<
            Registration,
            UffdHandoffError<U>,
        >(
            UffdHandoffError::UffdRegister {
                host_virt_addr: registration@.regions[registration@.index].host_virt_addr,
                len: registration@.regions[registration@.index].len,
                source,
            },
        ),
{
}

/// What sending comes to: an error of the platform for a negative number, and else the whole
/// payload exactly if the number is its length.
pub proof fn law_what_sending_comes_to(returned: isize, len: usize, outcome: SendOutcome)
    requires
        call_ensures(send_outcome, (returned, len), outcome),
    ensures
        match outcome {
            SendOutcome::OsError => returned < 0,
            SendOutcome::Whole => returned == len,
            SendOutcome::Short(message) => {
                &&& returned >= 0 && returned != len
                &&& message@ == "short sendmsg: sent "@ + decimal(returned as nat) + " of "@
                    + decimal(len as nat) + " payload bytes"@
            },
        },
{
}

/// The description of a handoff names the protocol and its version, the process and the truth about
/// the registration, and has one record for each region that was registered, in their order, with
/// all of its fields.
pub proof fn law_registered_regions_are_described(
    registered: RegisteredRegions,
    pid: u32,
    described: DescribedHandoff,
)
    requires
        call_ensures(RegisteredRegions::describe, (registered, pid), described),
    ensures
        ({
            let regions = registered@.regions;
            let metadata = described@.metadata;
            &&& described@.regions == regions
            &&& metadata.protocol@ == "meridian-cloud-hypervisor-uffd-handoff"@
            &&& metadata.version == 2
            &&& metadata.pid == pid
            &&& metadata.user_mode_only == registered@.user_mode_only
            &&& metadata.registered_write_protect == registered@.write_protect
            &&& metadata.regions@.len() == regions.len()
            &&& forall|i: int|
                0 <= i < regions.len() ==> {
                    let record = #[trigger] metadata.regions@[i];
                    &&& record.guest_phys_addr == regions[i].guest_phys_addr
                    &&& record.len == regions[i].len
                    &&& record.host_virt_addr == regions[i].host_virt_addr
                    &&& record.file_offset == regions[i].file_offset
                    &&& record.backing_dev == regions[i].backing_dev
                    &&& record.backing_ino == regions[i].backing_ino
                    &&& record.shared == regions[i].shared
                }
        }),
{
    law_metadata_have_every_field_of_every_region(
        described@.metadata,
        registered@.regions,
        pid,
        registered@.user_mode_only,
        registered@.write_protect,
    );
}

/// The metadata that are to be serialized are those of the description.
pub proof fn law_description_is_serialized(
    described: &DescribedHandoff,
    metadata: &UffdHandoffMetadata,
)
    requires
        call_ensures(DescribedHandoff::metadata, (described,), metadata),
    ensures
        *metadata == described@.metadata,
{
}

/// A document becomes the payload: its length in four bytes, least significant first, and itself.
/// Without one, the handoff fails with the error.
pub proof fn law_document_becomes_the_payload<U>(
    described: DescribedHandoff,
    document: Result<Vec<u8>, serde_json::Error>,
    framed: Result<FramedHandoff, UffdHandoffError<U>>,
)
    requires
        call_ensures(DescribedHandoff::serialized::<U>, (described, document), framed),
    ensures
        match document {
            Err(error) => framed == Err::<FramedHandoff, UffdHandoffError<U>>(
                UffdHandoffError::Serialize(error),
            ),
            Ok(document) => {
                &&& framed matches Ok(handoff)
                &&& handoff@.regions == described@.regions
                &&& handoff@.metadata == described@.metadata
                &&& handoff@.payload.len() == 4 + document@.len()
                &&& handoff@.payload[0] == document@.len() % 256
                &&& handoff@.payload[1] == document@.len() / 256 % 256
                &&& handoff@.payload[2] == document@.len() / 65_536 % 256
                &&& handoff@.payload[3] == document@.len() / 16_777_216 % 256
                &&& handoff@.payload.skip(4) == document@
            },
        },
{
    if let Ok(document) = document {
        law_payload_is_length_and_document(document@);
        assert(framed->Ok_0@.payload.skip(4) =~= document@);
    }
}

/// A connection is handed back. Without one, the handoff fails with the path and the error.
pub proof fn law_connection_is_handed_back<U, S>(
    handoff: FramedHandoff,
    path: String,
    outcome: Result<S, std::io::Error>,
    connected: Result<(ConnectedHandoff, S), UffdHandoffError<U>>,
)
    requires
        call_ensures(FramedHandoff::connected::<U, S>, (handoff, path, outcome), connected),
    ensures
        match outcome {
            Err(source) => connected == Err::<(ConnectedHandoff, S), UffdHandoffError<U>>(
                UffdHandoffError::SocketConnect { path, source },
            ),
            Ok(stream) => {
                &&& connected matches Ok((next, same))
                &&& same == stream
                &&& next@.regions == handoff@.regions
                &&& next@.metadata == handoff@.metadata
                &&& next@.payload == handoff@.payload
            },
        },
{
}

/// What is sent is the payload.
pub proof fn law_payload_is_sent(handoff: &ConnectedHandoff, payload: &[u8])
    requires
        call_ensures(ConnectedHandoff::payload, (handoff,), payload),
    ensures
        payload@ == handoff@.payload,
{
}

/// The handoff goes on exactly if as many bytes were sent as the payload has. It fails with the
/// error of the platform where nothing was sent, and with one that names both numbers otherwise.
pub proof fn law_only_a_whole_payload_is_sent<U>(
    handoff: ConnectedHandoff,
    returned: isize,
    os_error: std::io::Error,
    sent: Result<SentHandoff, UffdHandoffError<U>>,
)
    requires
        call_ensures(ConnectedHandoff::sent::<U>, (handoff, returned, os_error), sent),
    ensures
        if returned == handoff@.payload.len() {
            &&& sent matches Ok(next)
            &&& next@.regions == handoff@.regions
            &&& next@.metadata == handoff@.metadata
            &&& next@.payload == handoff@.payload
        } else if returned < 0 {
            sent == Err::<SentHandoff, UffdHandoffError<U>>(UffdHandoffError::SocketSend(os_error))
        } else {
            sent == Err::<SentHandoff, UffdHandoffError<U>>(
                UffdHandoffError::SocketSend(
                    write_zero_error(
                        "short sendmsg: sent "@ + decimal(returned as nat) + " of "@ + decimal(
                            handoff@.payload.len(),
                        ) + " payload bytes"@,
                    ),
                ),
            )
        },
{
}

/// The handoff goes on exactly if a byte was read and it is 1. Otherwise the error tells whether
/// reading failed, the peer closed its end, or the byte was another.
pub proof fn law_only_one_acknowledges<U>(
    handoff: SentHandoff,
    read: Result<usize, std::io::Error>,
    ack: u8,
    acknowledged: Result<AcknowledgedHandoff, UffdHandoffError<U>>,
)
    requires
        call_ensures(SentHandoff::acknowledged::<U>, (handoff, read, ack), acknowledged),
    ensures
        match read {
            Err(error) => acknowledged == Err::<AcknowledgedHandoff, UffdHandoffError<U>>(
                UffdHandoffError::AckRead(error),
            ),
            Ok(count) => if count == 0 {
                acknowledged == Err::<AcknowledgedHandoff, UffdHandoffError<U>>(
                    UffdHandoffError::AckEof,
                )
            } else if ack == 1 {
                &&& acknowledged matches Ok(next)
                &&& next@.regions == handoff@.regions
                &&& next@.metadata == handoff@.metadata
            } else {
                acknowledged == Err::<AcknowledgedHandoff, UffdHandoffError<U>>(
                    UffdHandoffError::AckUnexpected(ack),
                )
            },
        },
{
}

/// The session has one entry for each region that was handed off, in their order, with its
/// addresses, its length and whether it is shared; and expects sequence number one.
pub proof fn law_session_serves_every_region(
    handoff: &AcknowledgedHandoff,
    errnos: Errnos,
    session: CooperationSession,
)
    requires
        call_ensures(AcknowledgedHandoff::session, (handoff, errnos), session),
    ensures
        ({
            let regions = handoff@.regions;
            &&& session@.expected_sequence == 1
            &&& session@.errnos == errnos
            &&& session@.regions.len() == regions.len()
            &&& forall|i: int|
                0 <= i < regions.len() ==> {
                    let entry = #[trigger] session@.regions[i];
                    &&& entry.guest_phys_addr == regions[i].guest_phys_addr
                    &&& entry.host_virt_addr == regions[i].host_virt_addr
                    &&& entry.len == regions[i].len
                    &&& entry.shared == regions[i].shared
                }
        }),
{
    law_session_has_every_region(handoff@.regions, errnos);
}

/// A handoff whose session was started gives its metadata. Otherwise it fails with the error.
pub proof fn law_started_handoff_gives_its_metadata<U>(
    handoff: AcknowledgedHandoff,
    outcome: Result<(), std::io::Error>,
    metadata: Result<UffdHandoffMetadata, UffdHandoffError<U>>,
)
    requires
        call_ensures(AcknowledgedHandoff::started::<U>, (handoff, outcome), metadata),
    ensures
        outcome is Ok ==> metadata == Ok::<UffdHandoffMetadata, UffdHandoffError<U>>(
            handoff@.metadata,
        ),
        outcome matches Err(error) ==> metadata == Err::<UffdHandoffMetadata, UffdHandoffError<U>>(
            UffdHandoffError::CooperationThreadSpawn(error),
        ),
{
}

/// The error numbers of the platform are those of Linux, are positive and differ from one another.
pub proof fn law_error_numbers_of_the_platform(errnos: Errnos)
    requires
        call_ensures(Errnos::host, (), errnos),
    ensures
        errnos.e2big == 7,
        errnos.eio == 5,
        errnos.erange == 34,
        errnos.eopnotsupp == 95 || errnos.eopnotsupp == 122 || errnos.eopnotsupp == 45,
        errnos.eproto == (if errnos.eopnotsupp == 45 {
            86int
        } else {
            71
        }),
        errnos.eprotonosupport == errnos.eopnotsupp - 2,
{
}

/// The message of each error.
pub proof fn law_message_of_each_error<U>(error: &UffdHandoffError<U>, message: String)
    requires
        call_ensures(UffdHandoffError::<U>::message, (error,), message),
    ensures
        match error {
            UffdHandoffError::NoEligibleRegions => message@
                == "guest RAM has no eligible regions for userfaultfd handoff"@,
            UffdHandoffError::UffdCreate(_) => message@
                == "failed to create userfaultfd descriptor"@,
            UffdHandoffError::UffdMinorCreate(_) => message@
                == "failed to create minor-fault-capable userfaultfd descriptor"@,
            UffdHandoffError::UffdRegister { host_virt_addr, len, .. } => message@
                == "failed to register guest RAM range (host_virt_addr "@ + hexadecimal(
                *host_virt_addr as nat,
            ) + ", len "@ + decimal(*len as nat) + ") with userfaultfd"@,
            UffdHandoffError::SocketConnect { path, .. } => message@
                == "failed to connect to uffd handoff socket "@ + path@,
            UffdHandoffError::SocketSend(_) => message@ == "failed to send uffd handoff payload"@,
            UffdHandoffError::AckEof => message@
                == "uffd handoff peer closed the socket before acknowledging the payload"@,
            UffdHandoffError::AckRead(_) => message@
                == "failed to read uffd handoff acknowledgement"@,
            UffdHandoffError::AckUnexpected(ack) => message@
                == "uffd handoff peer returned unexpected acknowledgement byte "@ + hexadecimal(
                *ack as nat,
            ),
            UffdHandoffError::CooperationThreadSpawn(_) => message@
                == "failed to spawn the uffd cooperation control thread"@,
            UffdHandoffError::Serialize(_) => message@
                == "failed to serialize uffd handoff metadata"@,
        },
{
}

} // verus!
