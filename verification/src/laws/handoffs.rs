//! What a handoff asks for, reports and comes to.

use vstd::prelude::*;

use crate::course::{
    handoff_end, law_registration_is_truthful, law_user_mode_only_is_truthful, minor_attempts,
    registers_between, Registers, World,
};
use crate::creation::{
    after_refusal, may_close_on_exec, minor_api, open_flags_of, plain_options, CreationView,
};
use crate::errno::Errnos;
use crate::error::UffdHandoffError;
use crate::evict::{page_decision, PageDecision};
use crate::handoff::{session_of, short_send_message, write_zero_error};
use crate::laws::frames::law_payload_is_length_and_document;
use crate::laws::pages::law_page_of_a_private_region_is_dropped;
use crate::metadata::{describes, UffdHandoffMetadata, UffdHandoffRegionSource};
use crate::registration::{
    after_region_refused, request_of, start_of, RegisterMode, RegistrationView,
};
use crate::text::decimal;

verus! {

/// Metadata that describe a handoff name the protocol and its version, the process and the
/// capabilities, and have one record for each region, in their order, with all of its fields.
pub proof fn law_metadata_have_every_field_of_every_region(
    metadata: UffdHandoffMetadata,
    regions: Seq<UffdHandoffRegionSource>,
    pid: u32,
    user_mode_only: bool,
    registered_write_protect: bool,
)
    requires
        describes(metadata, regions, pid, user_mode_only, registered_write_protect),
    ensures
        metadata.protocol@ == "meridian-cloud-hypervisor-uffd-handoff"@,
        metadata.version == 2,
        metadata.pid == pid,
        metadata.user_mode_only == user_mode_only,
        metadata.registered_write_protect == registered_write_protect,
        metadata.regions@.len() == regions.len(),
        forall|i: int|
            #![trigger metadata.regions@[i]]
            #![trigger regions[i]]
            0 <= i < regions.len() ==> {
                &&& metadata.regions@[i].guest_phys_addr == regions[i].guest_phys_addr
                &&& metadata.regions@[i].len == regions[i].len
                &&& metadata.regions@[i].host_virt_addr == regions[i].host_virt_addr
                &&& metadata.regions@[i].file_offset == regions[i].file_offset
                &&& metadata.regions@[i].backing_dev == regions[i].backing_dev
                &&& metadata.regions@[i].backing_ino == regions[i].backing_ino
                &&& metadata.regions@[i].shared == regions[i].shared
            },
{
}

/// The session that is started after a handoff expects sequence number one first, and has one entry
/// for each region that was handed off, in their order, with its addresses, its length and whether
/// it is shared.
pub proof fn law_session_has_every_region(regions: Seq<UffdHandoffRegionSource>, errnos: Errnos)
    ensures
        session_of(regions, errnos).expected_sequence == 1,
        session_of(regions, errnos).errnos == errnos,
        session_of(regions, errnos).regions.len() == regions.len(),
        forall|i: int|
            #![trigger session_of(regions, errnos).regions[i]]
            #![trigger regions[i]]
            0 <= i < regions.len() ==> {
                let entry = session_of(regions, errnos).regions[i];
                &&& entry.guest_phys_addr == regions[i].guest_phys_addr
                &&& entry.host_virt_addr == regions[i].host_virt_addr
                &&& entry.len == regions[i].len
                &&& entry.shared == regions[i].shared
            },
{
}

/// Each page of each private region that the metadata report can be evicted: the session that is
/// started drops it at its place in the mapping that they report.
pub proof fn law_reported_page_can_be_evicted(
    metadata: UffdHandoffMetadata,
    regions: Seq<UffdHandoffRegionSource>,
    pid: u32,
    user_mode_only: bool,
    registered_write_protect: bool,
    errnos: Errnos,
    i: int,
    pfn: u64,
)
    requires
        describes(metadata, regions, pid, user_mode_only, registered_write_protect),
        0 <= i < metadata.regions@.len(),
        ({
            let region = metadata.regions@[i];
            &&& !region.shared
            &&& region.guest_phys_addr + region.len <= 0xffff_ffff_ffff_ffff
            &&& region.host_virt_addr + region.len <= 0xffff_ffff_ffff_ffff
            &&& region.guest_phys_addr <= pfn * 4096
            &&& pfn * 4096 + 4096 <= region.guest_phys_addr + region.len
        }),
        forall|j: int|
            0 <= j < i ==> {
                let earlier = #[trigger] metadata.regions@[j];
                ||| pfn * 4096 + 4096 <= earlier.guest_phys_addr
                ||| earlier.guest_phys_addr + earlier.len <= pfn * 4096
            },
    ensures
        page_decision(errnos, session_of(regions, errnos).regions, pfn) matches
            PageDecision::Advise(host_va) && host_va == metadata.regions@[i].host_virt_addr + pfn
            * 4096 - metadata.regions@[i].guest_phys_addr,
{
    let session = session_of(regions, errnos);
    law_metadata_have_every_field_of_every_region(
        metadata,
        regions,
        pid,
        user_mode_only,
        registered_write_protect,
    );
    law_session_has_every_region(regions, errnos);
    assert forall|j: int| 0 <= j < i implies {
        ||| pfn * 4096 + 4096 <= (#[trigger] session.regions[j]).guest_phys_addr
        ||| session.regions[j].guest_phys_addr + session.regions[j].len <= pfn * 4096
    } by {
        let earlier = metadata.regions@[j];
        assert(session.regions[j].guest_phys_addr == regions[j].guest_phys_addr);
    }
    assert(session.regions[i].guest_phys_addr == regions[i].guest_phys_addr);
    law_page_of_a_private_region_is_dropped(errnos, session.regions, pfn, i);
}

/// The range that is asked for is the whole region.
pub proof fn law_whole_region_is_asked_for(
    regions: Seq<UffdHandoffRegionSource>,
    mode: RegisterMode,
    index: int,
)
    ensures
        request_of(regions, mode, index).host_virt_addr == regions[index].host_virt_addr,
        request_of(regions, mode, index).len == regions[index].len,
        request_of(regions, mode, index).mode == mode,
{
}

/// A registration starts with the first region, for missing-page and write-protect faults, or for
/// missing-page and minor faults where those are asked for. A refusal of write protection starts it
/// again for missing-page faults alone; any other refusal ends it.
pub proof fn law_registration_starts_with_the_first_region(
    regions: Seq<UffdHandoffRegionSource>,
    user_mode_only: bool,
    minor: bool,
    registration: RegistrationView,
)
    ensures
        start_of(regions, user_mode_only, minor).regions == regions,
        start_of(regions, user_mode_only, minor).user_mode_only == user_mode_only,
        start_of(regions, user_mode_only, minor).index == 0,
        minor ==> start_of(regions, user_mode_only, minor).mode == RegisterMode::MissingMinor,
        !minor ==> start_of(regions, user_mode_only, minor).mode
            == RegisterMode::MissingWriteProtect,
        registration.mode != RegisterMode::MissingWriteProtect ==> after_region_refused(
            registration,
        ) is None,
        registration.mode == RegisterMode::MissingWriteProtect ==> {
            &&& after_region_refused(registration) matches Some(again)
            &&& again.regions == registration.regions
            &&& again.user_mode_only == registration.user_mode_only
            &&& again.mode == RegisterMode::Missing
            &&& again.index == 0
        },
{
}

/// A descriptor is asked for that is closed on `exec` and blocks, without required features; one
/// for user-mode faults alone after one that is not was refused, and nothing after that.
pub proof fn law_descriptor_is_asked_for_in_this_way(user_mode_only: bool, creation: CreationView)
    ensures
        plain_options(user_mode_only).close_on_exec,
        !plain_options(user_mode_only).non_blocking,
        plain_options(user_mode_only).user_mode_only == user_mode_only,
        plain_options(user_mode_only).features == 0,
        plain_options(user_mode_only).ioctls == 0,
        creation.user_mode_only ==> after_refusal(creation) is None,
        !creation.user_mode_only ==> {
            &&& after_refusal(creation) matches Some(next)
            &&& next.user_mode_only
            &&& next.regions == creation.regions
        },
{
}

/// A descriptor with minor faults is opened with the flag for closing on `exec`, and the lowest bit
/// besides exactly if it is for user-mode faults alone. It is asked for API 0xAA, with missing-page
/// and minor faults on shared memory: bits 3 and 9.
pub proof fn law_minor_descriptor_is_asked_for_in_this_way(close_on_exec: i32, user_mode_only: bool)
    requires
        may_close_on_exec(close_on_exec),
    ensures
        close_on_exec == 524_288 || close_on_exec == 4_194_304,
        open_flags_of(close_on_exec, user_mode_only) == close_on_exec + (if user_mode_only {
            1int
        } else {
            0
        }),
        minor_api().api == 0xAA,
        minor_api().features == 8 + 512,
        minor_api().ioctls == 0,
{
    assert(0x8_0000i32 | 1 == 0x8_0001i32 && 0x40_0000i32 | 1 == 0x40_0001i32) by (bit_vector);
    assert(0x8u64 | 0x200 == 0x208u64) by (bit_vector);
}

/// The message about a payload that was not sent whole names both numbers.
pub proof fn law_short_send_names_both_numbers(sent: nat, len: nat)
    ensures
        short_send_message(sent, len) == "short sendmsg: sent "@ + decimal(sent) + " of "@
            + decimal(len) + " payload bytes"@,
{
}

/// Without regions there is nothing to hand off.
pub proof fn law_handoff_needs_regions<U, D, S>(
    regions: Seq<UffdHandoffRegionSource>,
    minor: bool,
    path: String,
    world: World<U, D, S>,
)
    requires
        regions.len() == 0,
    ensures
        handoff_end(regions, minor, path, world) == Err::<(bool, bool), UffdHandoffError<U>>(
            UffdHandoffError::NoEligibleRegions,
        ),
{
}

/// Where neither a descriptor for all faults nor one for user-mode faults alone can be had, the
/// handoff fails with the error of the second attempt, whatever else would come of it.
pub proof fn law_handoff_needs_a_descriptor<U, D, S>(
    regions: Seq<UffdHandoffRegionSource>,
    path: String,
    world: World<U, D, S>,
)
    requires
        regions.len() > 0,
    ensures
        (world.creates)(false) is Err ==> ((world.creates)(true) matches Err(error) ==> handoff_end(
            regions,
            false,
            path,
            world,
        ) == Err::<(bool, bool), UffdHandoffError<U>>(UffdHandoffError::UffdCreate(error))),
        (world.opens)(false) is Err || (world.negotiates)(false) is Err ==> {
            &&& (world.opens)(true) matches Err(error) ==> handoff_end(regions, true, path, world)
                == Err::<(bool, bool), UffdHandoffError<U>>(
                UffdHandoffError::UffdMinorCreate(error),
            )
            &&& (world.opens)(true) is Ok ==> ((world.negotiates)(true) matches Err(error)
                ==> handoff_end(regions, true, path, world) == Err::<
                (bool, bool),
                UffdHandoffError<U>,
            >(UffdHandoffError::UffdMinorCreate(error)))
        },
{
    law_user_mode_only_is_truthful(regions, world.creates);
    law_user_mode_only_is_truthful(regions, minor_attempts(world.opens, world.negotiates));
}

/// Where a descriptor can be had, but a region is refused with write protection and a region
/// without it, or with minor faults where those are asked for, the handoff fails with the first
/// region that is refused in the last way, and its error.
pub proof fn law_handoff_needs_every_region<U, D, S>(
    regions: Seq<UffdHandoffRegionSource>,
    minor: bool,
    last: RegisterMode,
    refused: int,
    protected: int,
    path: String,
    world: World<U, D, S>,
)
    requires
        if minor {
            ((world.opens)(false) is Ok && (world.negotiates)(false) is Ok) || ((world.opens)(true)
                is Ok && (world.negotiates)(true) is Ok)
        } else {
            (world.creates)(false) is Ok || (world.creates)(true) is Ok
        },
        minor ==> last == RegisterMode::MissingMinor,
        !minor ==> last == RegisterMode::Missing,
        !minor ==> 0 <= protected < regions.len() && (world.registers)(
            RegisterMode::MissingWriteProtect,
            protected,
        ) is Err,
        0 <= refused < regions.len(),
        (world.registers)(last, refused) is Err,
        forall|i: int| 0 <= i < refused ==> (#[trigger] (world.registers)(last, i)) is Ok,
    ensures
        handoff_end(regions, minor, path, world) == Err::<(bool, bool), UffdHandoffError<U>>(
            UffdHandoffError::UffdRegister {
                host_virt_addr: regions[refused].host_virt_addr,
                len: regions[refused].len,
                source: (world.registers)(last, refused)->Err_0,
            },
        ),
{
    let len = regions.len() as int;
    law_user_mode_only_is_truthful(regions, world.creates);
    law_user_mode_only_is_truthful(regions, minor_attempts(world.opens, world.negotiates));
    law_registration_is_truthful(regions, false, world.registers);
    law_registration_is_truthful(regions, true, world.registers);
    assert(!registers_between(world.registers, last, 0, len));
    if !minor {
        assert(!registers_between(world.registers, RegisterMode::MissingWriteProtect, 0, len));
    }
}

/// Where every region is registered, the handoff fails if the metadata cannot be serialized, if the
/// peer cannot be connected to, if anything but the whole payload is sent, if no acknowledgement is
/// read or it is not 1, or if the thread does not start; with the error of the first of these. Else
/// it succeeds, and reports user-mode faults alone exactly if no descriptor for all faults could be
/// had, and write protection exactly if every region has it.
pub proof fn law_registered_handoff_comes_to_this<U, D, S>(
    regions: Seq<UffdHandoffRegionSource>,
    minor: bool,
    protect: bool,
    path: String,
    world: World<U, D, S>,
)
    requires
        regions.len() > 0,
        if minor {
            ((world.opens)(false) is Ok && (world.negotiates)(false) is Ok) || ((world.opens)(true)
                is Ok && (world.negotiates)(true) is Ok)
        } else {
            (world.creates)(false) is Ok || (world.creates)(true) is Ok
        },
        minor ==> !protect && forall|i: int|
            0 <= i < regions.len() ==> (#[trigger] (world.registers)(
                RegisterMode::MissingMinor,
                i,
            )) is Ok,
        protect ==> forall|i: int|
            0 <= i < regions.len() ==> (#[trigger] (world.registers)(
                RegisterMode::MissingWriteProtect,
                i,
            )) is Ok,
        !minor && !protect ==> {
            &&& exists|i: int|
                0 <= i < regions.len() && (#[trigger] (world.registers)(
                    RegisterMode::MissingWriteProtect,
                    i,
                )) is Err
            &&& forall|i: int|
                0 <= i < regions.len() ==> (#[trigger] (world.registers)(
                    RegisterMode::Missing,
                    i,
                )) is Ok
        },
    ensures
        ({
            let end = handoff_end(regions, minor, path, world);
            let d = world.delivery;
            match d.document {
                Err(error) => end == Err::<(bool, bool), UffdHandoffError<U>>(
                    UffdHandoffError::Serialize(error),
                ),
                Ok(document) => match d.connects {
                    Err(source) => end == Err::<(bool, bool), UffdHandoffError<U>>(
                        UffdHandoffError::SocketConnect { path, source },
                    ),
                    Ok(_) => if d.sent < 0 {
                        end == Err::<(bool, bool), UffdHandoffError<U>>(
                            UffdHandoffError::SocketSend(d.os_error),
                        )
                    } else if d.sent != 4 + document@.len() {
                        end == Err::<(bool, bool), UffdHandoffError<U>>(
                            UffdHandoffError::SocketSend(
                                write_zero_error(
                                    "short sendmsg: sent "@ + decimal(d.sent as nat) + " of "@
                                        + decimal(4 + document@.len()) + " payload bytes"@,
                                ),
                            ),
                        )
                    } else {
                        match d.read {
                            Err(error) => end == Err::<(bool, bool), UffdHandoffError<U>>(
                                UffdHandoffError::AckRead(error),
                            ),
                            Ok(count) => if count == 0 {
                                end == Err::<(bool, bool), UffdHandoffError<U>>(
                                    UffdHandoffError::AckEof,
                                )
                            } else if d.ack != 1 {
                                end == Err::<(bool, bool), UffdHandoffError<U>>(
                                    UffdHandoffError::AckUnexpected(d.ack),
                                )
                            } else {
                                match d.starts {
                                    Err(error) => end == Err::<(bool, bool), UffdHandoffError<U>>(
                                        UffdHandoffError::CooperationThreadSpawn(error),
                                    ),
                                    Ok(()) => {
                                        &&& end matches Ok((user_mode_only, write_protect))
                                        &&& write_protect == protect
                                        &&& minor ==> (user_mode_only <==> (world.opens)(false)
                                            is Err || (world.negotiates)(false) is Err)
                                        &&& !minor ==> (user_mode_only <==> (world.creates)(false)
                                            is Err)
                                    },
                                }
                            },
                        }
                    },
                },
            }
        }),
{
    let len = regions.len() as int;
    law_user_mode_only_is_truthful(regions, world.creates);
    law_user_mode_only_is_truthful(regions, minor_attempts(world.opens, world.negotiates));
    law_registration_is_truthful(regions, false, world.registers);
    law_registration_is_truthful(regions, true, world.registers);
    lemma_all_between(world.registers, RegisterMode::MissingMinor, len);
    lemma_all_between(world.registers, RegisterMode::MissingWriteProtect, len);
    lemma_all_between(world.registers, RegisterMode::Missing, len);
    if let Ok(document) = world.delivery.document {
        law_payload_is_length_and_document(document@);
    }
}

proof fn lemma_all_between<U>(registers: Registers<U>, mode: RegisterMode, to: int)
    ensures
        registers_between(registers, mode, 0, to) <==> (forall|i: int|
            0 <= i < to ==> (#[trigger] registers(mode, i)) is Ok),
{
}

} // verus!
