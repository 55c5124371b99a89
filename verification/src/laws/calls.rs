//! Which calls a handoff makes, with what they are given.

use vstd::prelude::*;

use crate::calls::{
    attempt_calls, creation_calls, delivery_calls, descriptor_calls, handoff_delivery_calls,
    law_accepted_regions_are_registered_once, law_last_registration_is_the_reported_one,
    law_refused_region_ends_the_pass, minor_creation_calls, registration_calls,
    DeliveryCall, DescriptorCall,
};
use crate::course::{
    created, handoff_end, law_registration_is_truthful, law_user_mode_only_is_truthful,
    minor_attempts, registration_end, Creates, Delivery, Registers, World,
};
use crate::creation::{may_close_on_exec, CreationView, MinorCreationView};
use crate::errno::Errnos;
use crate::handoff::session_of;
use crate::laws::frames::law_payload_is_length_and_document;
use crate::laws::handoffs::law_minor_descriptor_is_asked_for_in_this_way;
use crate::metadata::{payload_of, UffdHandoffMetadata, UffdHandoffRegionSource};
use crate::registration::{start_of, RegisterMode, RegistrationView};

verus! {

/// Where no region is refused, each is registered with the descriptor once, in their order, and
/// nothing else is: its whole range, for missing-page and write-protect faults, or for missing-page
/// and minor faults where those are asked for.
pub proof fn law_each_region_is_registered_whole<U, D>(
    descriptor: D,
    regions: Seq<UffdHandoffRegionSource>,
    user_mode_only: bool,
    minor: bool,
    mode: RegisterMode,
    registers: Registers<U>,
)
    requires
        minor ==> mode == RegisterMode::MissingMinor,
        !minor ==> mode == RegisterMode::MissingWriteProtect,
        forall|i: int| 0 <= i < regions.len() ==> (#[trigger] registers(mode, i)) is Ok,
    ensures
        ({
            let calls = registration_calls(
                descriptor,
                start_of(regions, user_mode_only, minor),
                registers,
            );
            &&& calls.len() == regions.len()
            &&& forall|i: int|
                0 <= i < regions.len() ==> {
                    &&& #[trigger] calls[i] matches DescriptorCall::Register(of, request, answer)
                    &&& of == descriptor
                    &&& request.host_virt_addr == regions[i].host_virt_addr
                    &&& request.len == regions[i].len
                    &&& request.mode == mode
                    &&& answer == registers(mode, i)
                }
        }),
{
    law_accepted_regions_are_registered_once(
        descriptor,
        start_of(regions, user_mode_only, minor),
        registers,
    );
}

/// Where a region is refused, the calls up to that one are for the regions up to it, each whole and
/// in their order. With minor faults there are no others.
pub proof fn law_first_refused_region_is_asked_for_last<U, D>(
    descriptor: D,
    regions: Seq<UffdHandoffRegionSource>,
    user_mode_only: bool,
    minor: bool,
    mode: RegisterMode,
    registers: Registers<U>,
    refused: int,
)
    requires
        minor ==> mode == RegisterMode::MissingMinor,
        !minor ==> mode == RegisterMode::MissingWriteProtect,
        0 <= refused < regions.len(),
        registers(mode, refused) is Err,
        forall|i: int| 0 <= i < refused ==> (#[trigger] registers(mode, i)) is Ok,
    ensures
        ({
            let calls = registration_calls(
                descriptor,
                start_of(regions, user_mode_only, minor),
                registers,
            );
            &&& calls.len() > refused
            &&& minor ==> calls.len() == refused + 1
            &&& forall|i: int|
                0 <= i <= refused ==> {
                    &&& #[trigger] calls[i] matches DescriptorCall::Register(of, request, answer)
                    &&& of == descriptor
                    &&& request.host_virt_addr == regions[i].host_virt_addr
                    &&& request.len == regions[i].len
                    &&& request.mode == mode
                    &&& answer == registers(mode, i)
                }
        }),
{
    law_refused_region_ends_the_pass(
        descriptor,
        start_of(regions, user_mode_only, minor),
        registers,
        refused,
    );
}

/// Where write protection is refused, the calls after that are for missing-page faults alone, for
/// the regions from the first, each whole and in their order: all of them where `last` is their
/// number, and otherwise those up to the one at `last`, which is refused too.
pub proof fn law_refused_protection_is_given_up<U, D>(
    descriptor: D,
    regions: Seq<UffdHandoffRegionSource>,
    user_mode_only: bool,
    registers: Registers<U>,
    refused: int,
    last: int,
)
    requires
        0 <= refused < regions.len(),
        registers(RegisterMode::MissingWriteProtect, refused) is Err,
        forall|i: int|
            0 <= i < refused ==> (#[trigger] registers(RegisterMode::MissingWriteProtect, i))
                is Ok,
        0 <= last <= regions.len(),
        last < regions.len() ==> registers(RegisterMode::Missing, last) is Err,
        forall|i: int| 0 <= i < last ==> (#[trigger] registers(RegisterMode::Missing, i)) is Ok,
    ensures
        ({
            let calls = registration_calls(
                descriptor,
                start_of(regions, user_mode_only, false),
                registers,
            ).skip(refused + 1);
            &&& calls.len() == (if last < regions.len() {
                last + 1
            } else {
                last
            })
            &&& forall|i: int|
                0 <= i < calls.len() ==> {
                    &&& #[trigger] calls[i] matches DescriptorCall::Register(of, request, answer)
                    &&& of == descriptor
                    &&& request.host_virt_addr == regions[i].host_virt_addr
                    &&& request.len == regions[i].len
                    &&& request.mode == RegisterMode::Missing
                    &&& answer == registers(RegisterMode::Missing, i)
                }
        }),
{
    let start = start_of(regions, user_mode_only, false);
    let again = RegistrationView { mode: RegisterMode::Missing, index: 0, ..start };
    law_refused_region_ends_the_pass(descriptor, start, registers, refused);
    if last < regions.len() {
        law_refused_region_ends_the_pass(descriptor, again, registers, last);
    } else {
        law_accepted_regions_are_registered_once(descriptor, again, registers);
    }
    assert(registration_calls(descriptor, start, registers).skip(refused + 1)
        =~= registration_calls(descriptor, again, registers));
}

/// Where the registration succeeds, its last calls are one for each region, in their order, each
/// for the whole region and accepted, and each for the faults that are reported: with write
/// protection exactly if that is reported, and with minor faults exactly if these are asked for.
pub proof fn law_last_registration_is_of_every_region<U, D>(
    descriptor: D,
    regions: Seq<UffdHandoffRegionSource>,
    user_mode_only: bool,
    minor: bool,
    registers: Registers<U>,
    write_protect: bool,
)
    requires
        regions.len() > 0,
        registration_end(start_of(regions, user_mode_only, minor), registers) == Ok::<
            bool,
            (int, U),
        >(write_protect),
    ensures
        ({
            let calls = registration_calls(
                descriptor,
                start_of(regions, user_mode_only, minor),
                registers,
            );
            let last = calls.skip(calls.len() - regions.len());
            &&& calls.len() >= regions.len()
            &&& forall|i: int|
                0 <= i < regions.len() ==> {
                    &&& #[trigger] last[i] matches DescriptorCall::Register(of, request, answer)
                    &&& of == descriptor
                    &&& request.host_virt_addr == regions[i].host_virt_addr
                    &&& request.len == regions[i].len
                    &&& (request.mode == RegisterMode::MissingWriteProtect <==> write_protect)
                    &&& (request.mode == RegisterMode::MissingMinor <==> minor)
                    &&& answer is Ok
                }
        }),
{
    law_last_registration_is_the_reported_one(
        descriptor,
        regions,
        user_mode_only,
        minor,
        registers,
    );
}

/// In a handoff that succeeds, the last calls on the descriptor are one for each region, in their
/// order, each for the whole region and accepted, and each for the faults that are reported: with
/// write protection exactly if that is reported, and with minor faults exactly if these are asked
/// for.
pub proof fn law_successful_handoff_registers_every_region<U, D, S>(
    regions: Seq<UffdHandoffRegionSource>,
    minor: bool,
    path: String,
    world: World<U, D, S>,
    user_mode_only: bool,
    write_protect: bool,
)
    requires
        handoff_end(regions, minor, path, world) matches Ok(reported) && reported == (
            user_mode_only,
            write_protect,
        ),
    ensures
        ({
            let calls = descriptor_calls(regions, minor, world);
            let last = calls.skip(calls.len() - regions.len());
            &&& calls.len() >= regions.len()
            &&& forall|i: int|
                0 <= i < regions.len() ==> {
                    &&& #[trigger] last[i] matches DescriptorCall::Register(of, request, answer)
                    &&& request.host_virt_addr == regions[i].host_virt_addr
                    &&& request.len == regions[i].len
                    &&& (request.mode == RegisterMode::MissingWriteProtect <==> write_protect)
                    &&& (request.mode == RegisterMode::MissingMinor <==> minor)
                    &&& answer is Ok
                    &&& (minor ==> (world.opens)(user_mode_only) == Ok::<D, std::io::Error>(of))
                    &&& (!minor ==> (world.creates)(user_mode_only) == Ok::<D, U>(of))
                }
        }),
{
    law_user_mode_only_is_truthful(regions, world.creates);
    law_user_mode_only_is_truthful(regions, minor_attempts(world.opens, world.negotiates));
    law_registration_is_truthful(regions, false, world.registers);
    law_registration_is_truthful(regions, true, world.registers);
    if let Ok((descriptor, only)) = created(regions, minor, world) {
        let start = start_of(regions, only, minor);
        let calls = descriptor_calls(regions, minor, world);
        let registering = registration_calls(descriptor, start, world.registers);
        law_last_registration_is_of_every_region(
            descriptor,
            regions,
            only,
            minor,
            world.registers,
            write_protect,
        );
        assert(calls.skip(calls.len() - regions.len()) =~= registering.skip(
            registering.len() - regions.len(),
        ));
    }
}

/// Without regions, no call on a descriptor is made.
pub proof fn law_no_regions_no_calls<U, D, S>(
    regions: Seq<UffdHandoffRegionSource>,
    minor: bool,
    errnos: Errnos,
    metadata: UffdHandoffMetadata,
    world: World<U, D, S>,
)
    requires
        regions.len() == 0,
    ensures
        descriptor_calls(regions, minor, world).len() == 0,
        handoff_delivery_calls(regions, minor, errnos, metadata, world).len() == 0,
{
}

/// The first call asks for a descriptor for all faults, which closes on `exec`, blocks and needs no
/// features. Only where that is refused, the second asks for the same for user-mode faults alone.
/// Where that is refused too, there are no more; else the others register the regions with the one
/// that was had.
pub proof fn law_descriptor_is_asked_for_first<U, D, S>(
    regions: Seq<UffdHandoffRegionSource>,
    world: World<U, D, S>,
)
    requires
        regions.len() > 0,
    ensures
        ({
            let calls = descriptor_calls(regions, false, world);
            &&& calls[0] matches DescriptorCall::Create(options, answer)
            &&& options.close_on_exec && !options.non_blocking && !options.user_mode_only
            &&& options.features == 0 && options.ioctls == 0
            &&& answer == (world.creates)(false)
            &&& match (world.creates)(false) {
                Ok(descriptor) => calls.skip(1) == registration_calls(
                    descriptor,
                    start_of(regions, false, false),
                    world.registers,
                ),
                Err(_) => {
                    &&& calls[1] matches DescriptorCall::Create(options, answer)
                    &&& options.close_on_exec && !options.non_blocking && options.user_mode_only
                    &&& options.features == 0 && options.ioctls == 0
                    &&& answer == (world.creates)(true)
                    &&& match (world.creates)(true) {
                        Ok(descriptor) => calls.skip(2) == registration_calls(
                            descriptor,
                            start_of(regions, true, false),
                            world.registers,
                        ),
                        Err(_) => calls.len() == 2,
                    }
                },
            }
        }),
{
    reveal_with_fuel(creation_calls, 2);
    law_user_mode_only_is_truthful(regions, world.creates);
    let calls = descriptor_calls(regions, false, world);
    if let Ok((descriptor, user_mode_only)) = created(regions, false, world) {
        let registering = registration_calls(
            descriptor,
            start_of(regions, user_mode_only, false),
            world.registers,
        );
        assert(calls.skip(calls.len() - registering.len()) =~= registering);
    }
}

/// An attempt to have a descriptor with minor faults opens it, with the flag that closes it on
/// `exec` and, for user-mode faults alone, the lowest bit; and where it was opened, enables
/// missing-page and minor faults on shared memory with that one: API 0xAA, bits 3 and 9.
pub proof fn law_minor_attempt_opens_and_enables<U, D>(
    creation: MinorCreationView,
    opens: Creates<D, std::io::Error>,
    negotiates: Creates<(), std::io::Error>,
)
    requires
        may_close_on_exec(creation.close_on_exec),
    ensures
        ({
            let only = creation.creation.user_mode_only;
            let calls = attempt_calls::<U, D>(creation, opens, negotiates);
            &&& calls[0] matches DescriptorCall::Open(flags, opened)
            &&& flags == creation.close_on_exec + (if only {
                1int
            } else {
                0
            })
            &&& opened == opens(only)
            &&& match opens(only) {
                Ok(descriptor) => {
                    &&& calls.len() == 2
                    &&& calls[1] matches DescriptorCall::Negotiate(of, api, enabled)
                    &&& of == descriptor
                    &&& api.api == 0xAA && api.features == 520 && api.ioctls == 0
                    &&& enabled == negotiates(only)
                },
                Err(_) => calls.len() == 1,
            }
        }),
{
    law_minor_descriptor_is_asked_for_in_this_way(
        creation.close_on_exec,
        creation.creation.user_mode_only,
    );
}

/// The first attempt asks for a descriptor with minor faults for all faults. Only where it fails,
/// the second asks for one for user-mode faults alone. Where that fails too, there are no more
/// calls; else the others register the regions with the one that was had.
pub proof fn law_minor_descriptor_is_asked_for_first<U, D, S>(
    regions: Seq<UffdHandoffRegionSource>,
    world: World<U, D, S>,
)
    requires
        regions.len() > 0,
    ensures
        ({
            let calls = descriptor_calls(regions, true, world);
            let first = attempt_calls::<U, D>(
                MinorCreationView {
                    creation: CreationView { regions, user_mode_only: false },
                    close_on_exec: world.close_on_exec,
                },
                world.opens,
                world.negotiates,
            );
            let second = attempt_calls::<U, D>(
                MinorCreationView {
                    creation: CreationView { regions, user_mode_only: true },
                    close_on_exec: world.close_on_exec,
                },
                world.opens,
                world.negotiates,
            );
            if (world.opens)(false) is Ok && (world.negotiates)(false) is Ok {
                calls == first + registration_calls(
                    (world.opens)(false)->Ok_0,
                    start_of(regions, false, true),
                    world.registers,
                )
            } else if (world.opens)(true) is Ok && (world.negotiates)(true) is Ok {
                calls == first + second + registration_calls(
                    (world.opens)(true)->Ok_0,
                    start_of(regions, true, true),
                    world.registers,
                )
            } else {
                calls == first + second
            }
        }),
{
    reveal_with_fuel(minor_creation_calls, 2);
    law_user_mode_only_is_truthful(regions, minor_attempts(world.opens, world.negotiates));
}

/// A handoff is delivered only where a descriptor was had and every region registered with it, and
/// with that descriptor.
pub proof fn law_only_registered_regions_are_delivered<U, D, S>(
    regions: Seq<UffdHandoffRegionSource>,
    minor: bool,
    user_mode_only: bool,
    errnos: Errnos,
    metadata: UffdHandoffMetadata,
    world: World<U, D, S>,
)
    requires
        regions.len() > 0,
    ensures
        ({
            let calls = handoff_delivery_calls(regions, minor, errnos, metadata, world);
            let all = |mode: RegisterMode|
                forall|i: int|
                    0 <= i < regions.len() ==> (#[trigger] (world.registers)(mode, i)) is Ok;
            let any = if minor {
                all(RegisterMode::MissingMinor)
            } else {
                all(RegisterMode::MissingWriteProtect) || all(RegisterMode::Missing)
            };
            let had = |only: bool|
                if minor {
                    (world.opens)(only) is Ok && (world.negotiates)(only) is Ok
                } else {
                    (world.creates)(only) is Ok
                };
            &&& !any || !had(false) && !had(true) ==> calls.len() == 0
            &&& any && had(user_mode_only) && (user_mode_only ==> !had(false)) ==> calls
                == delivery_calls(
                if minor {
                    (world.opens)(user_mode_only)->Ok_0
                } else {
                    (world.creates)(user_mode_only)->Ok_0
                },
                regions,
                errnos,
                metadata,
                world.delivery,
            )
        }),
{
    law_user_mode_only_is_truthful(regions, world.creates);
    law_user_mode_only_is_truthful(regions, minor_attempts(world.opens, world.negotiates));
    law_registration_is_truthful(regions, false, world.registers);
    law_registration_is_truthful(regions, true, world.registers);
}

/// The metadata are serialized first. Where that succeeds, the peer is connected to; where that
/// does, the payload of the document is sent with the descriptor; where all of that is sent, four
/// bytes more than the document has, one byte is read; and where that is 1, the session of the
/// regions is started on the same connection. Nothing follows what fails.
pub proof fn law_delivery_goes_step_by_step<D, S>(
    descriptor: D,
    regions: Seq<UffdHandoffRegionSource>,
    errnos: Errnos,
    metadata: UffdHandoffMetadata,
    delivery: Delivery<S>,
)
    ensures
        ({
            let calls = delivery_calls(descriptor, regions, errnos, metadata, delivery);
            &&& calls[0] matches DeliveryCall::Serialize(serialized, document)
            &&& serialized == metadata
            &&& document == delivery.document
            &&& match delivery.document {
                Err(_) => calls.len() == 1,
                Ok(document) => {
                    &&& calls[1] matches DeliveryCall::Connect(connected)
                    &&& connected == delivery.connects
                    &&& match delivery.connects {
                        Err(_) => calls.len() == 2,
                        Ok(stream) => {
                            &&& calls[2] matches DeliveryCall::Send(to, with, payload, sent, error)
                            &&& to == stream
                            &&& with == descriptor
                            &&& payload == payload_of(document@)
                            &&& sent == delivery.sent
                            &&& error == delivery.os_error
                            &&& if delivery.sent != 4 + document@.len() {
                                calls.len() == 3
                            } else {
                                &&& calls[3] matches DeliveryCall::ReadAck(from, read, ack)
                                &&& from == stream
                                &&& read == delivery.read
                                &&& ack == delivery.ack
                                &&& if delivery.read matches Ok(count) && count != 0
                                    && delivery.ack == 1 {
                                    &&& calls.len() == 5
                                    &&& calls[4] matches DeliveryCall::Start(on, session, started)
                                    &&& on == stream
                                    &&& session == session_of(regions, errnos)
                                    &&& started == delivery.starts
                                } else {
                                    calls.len() == 4
                                }
                            }
                        },
                    }
                },
            }
        }),
{
    if let Ok(document) = delivery.document {
        law_payload_is_length_and_document(document@);
    }
}

} // verus!
