//! The calls of a handoff: which are made, in which order, and with which answers.

use vstd::prelude::*;

use crate::cooperation::SessionView;
use crate::course::{
    ack_error, created, creation_end, handoff_end, lemma_registration_pass, minor_attempts,
    registered, registers_between, registration_end, Creates, Delivery, Registers, World,
};
use crate::creation::{
    after_refusal, minor_api, open_flags_of, plain_options, CreationView, DescriptorOptions,
    MinorCreationView, UffdioApi,
};
use crate::errno::Errnos;
use crate::handoff::{send_error, session_of};
use crate::metadata::{payload_of, UffdHandoffMetadata, UffdHandoffRegionSource};
use crate::registration::{
    after_region_refused, request_of, start_of, RegisterMode, RegisterRequest, RegistrationView,
};

verus! {

/// A call on descriptors, with its answer. `D` is the type of the descriptor, and `U` that of its
/// errors.
pub ghost enum DescriptorCall<U, D> {
    Create(DescriptorOptions, Result<D, U>),
    Open(i32, Result<D, std::io::Error>),
    Negotiate(D, UffdioApi, Result<(), std::io::Error>),
    Register(D, RegisterRequest, Result<(), U>),
}

/// A call that delivers a handoff, with its answer. `S` is the type of the connection to the peer.
pub ghost enum DeliveryCall<D, S> {
    Serialize(UffdHandoffMetadata, Result<Vec<u8>, serde_json::Error>),
    Connect(Result<S, std::io::Error>),
    /// What `sendmsg(2)` returns for the payload, and the error that the platform holds then.
    Send(S, D, Seq<u8>, isize, std::io::Error),
    /// How many bytes are read for the acknowledgement, and the byte.
    ReadAck(S, Result<usize, std::io::Error>, u8),
    Start(S, SessionView, Result<(), std::io::Error>),
}

/// The calls that create a descriptor: one attempt, and another where that is refused.
pub open spec fn creation_calls<U, D>(creation: CreationView, creates: Creates<D, U>) -> Seq<
    DescriptorCall<U, D>,
>
    decreases !creation.user_mode_only as int,
{
    let answer = creates(creation.user_mode_only);
    let attempt = seq![DescriptorCall::Create(plain_options(creation.user_mode_only), answer)];
    match (answer, after_refusal(creation)) {
        (Err(_), Some(next)) => attempt + creation_calls(next, creates),
        _ => attempt,
    }
}

/// The calls of one attempt to have a descriptor with minor faults: its features are enabled where
/// it was opened.
pub open spec fn attempt_calls<U, D>(
    creation: MinorCreationView,
    opens: Creates<D, std::io::Error>,
    negotiates: Creates<(), std::io::Error>,
) -> Seq<DescriptorCall<U, D>> {
    let user_mode_only = creation.creation.user_mode_only;
    let flags = open_flags_of(creation.close_on_exec, user_mode_only);
    let opening = DescriptorCall::Open(flags, opens(user_mode_only));
    match opens(user_mode_only) {
        Ok(descriptor) => seq![
            opening,
            DescriptorCall::Negotiate(descriptor, minor_api(), negotiates(user_mode_only)),
        ],
        Err(_) => seq![opening],
    }
}

/// The calls that create a descriptor with minor faults: one attempt, and another where that is
/// refused.
pub open spec fn minor_creation_calls<U, D>(
    creation: MinorCreationView,
    opens: Creates<D, std::io::Error>,
    negotiates: Creates<(), std::io::Error>,
) -> Seq<DescriptorCall<U, D>>
    decreases !creation.creation.user_mode_only as int,
{
    let attempt = attempt_calls(creation, opens, negotiates);
    match (
        minor_attempts(opens, negotiates)(creation.creation.user_mode_only),
        after_refusal(creation.creation),
    ) {
        (Err(_), Some(next)) => attempt + minor_creation_calls(
            MinorCreationView { creation: next, ..creation },
            opens,
            negotiates,
        ),
        _ => attempt,
    }
}

/// The call that registers the region at `index` for the faults of `mode`.
pub open spec fn register_call<U, D>(
    descriptor: D,
    regions: Seq<UffdHandoffRegionSource>,
    mode: RegisterMode,
    index: int,
    registers: Registers<U>,
) -> DescriptorCall<U, D> {
    DescriptorCall::Register(descriptor, request_of(regions, mode, index), registers(mode, index))
}

/// The calls that register regions: one for each, in their order, up to the first that is refused;
/// and where it was write protection that was refused, the same again without it.
pub open spec fn registration_calls<U, D>(
    descriptor: D,
    registration: RegistrationView,
    registers: Registers<U>,
) -> Seq<DescriptorCall<U, D>>
    decreases
            (registration.mode == RegisterMode::MissingWriteProtect) as int,
            registration.regions.len() - registration.index,
{
    if !(0 <= registration.index < registration.regions.len()) {
        Seq::empty()
    } else {
        let call = seq![
            register_call(
                descriptor,
                registration.regions,
                registration.mode,
                registration.index,
                registers,
            ),
        ];
        match registers(registration.mode, registration.index) {
            Ok(()) => call + registration_calls(
                descriptor,
                RegistrationView { index: registration.index + 1, ..registration },
                registers,
            ),
            Err(_) => match after_region_refused(registration) {
                Some(next) => call + registration_calls(descriptor, next, registers),
                None => call,
            },
        }
    }
}

/// The calls that register the regions from one index up to another for the faults of `mode`.
pub open spec fn pass_calls<U, D>(
    descriptor: D,
    regions: Seq<UffdHandoffRegionSource>,
    mode: RegisterMode,
    registers: Registers<U>,
    from: int,
    to: int,
) -> Seq<DescriptorCall<U, D>> {
    Seq::new(
        (to - from) as nat,
        |i: int| register_call(descriptor, regions, mode, from + i, registers),
    )
}

/// Where no region is refused, each is registered once, in their order, and nothing else is.
pub proof fn law_accepted_regions_are_registered_once<U, D>(
    descriptor: D,
    registration: RegistrationView,
    registers: Registers<U>,
)
    requires
        0 <= registration.index <= registration.regions.len(),
        registers_between(
            registers,
            registration.mode,
            registration.index,
            registration.regions.len() as int,
        ),
    ensures
        registration_calls(descriptor, registration, registers) == pass_calls(
            descriptor,
            registration.regions,
            registration.mode,
            registers,
            registration.index,
            registration.regions.len() as int,
        ),
    decreases registration.regions.len() - registration.index,
{
    let RegistrationView { regions, mode, index, .. } = registration;
    let len = regions.len() as int;
    if index < len {
        assert(registers(mode, index) is Ok);
        law_accepted_regions_are_registered_once(
            descriptor,
            RegistrationView { index: index + 1, ..registration },
            registers,
        );
        assert(seq![register_call(descriptor, regions, mode, index, registers)] + pass_calls(
            descriptor,
            regions,
            mode,
            registers,
            index + 1,
            len,
        ) =~= pass_calls(descriptor, regions, mode, registers, index, len));
    } else {
        assert(pass_calls(descriptor, regions, mode, registers, index, len) =~= Seq::empty());
    }
}

/// Where a region is refused, those before it and it are registered once, in their order, and none
/// after it; then all are tried again without write protection, if that was what was refused, and
/// nothing more if not.
pub proof fn law_refused_region_ends_the_pass<U, D>(
    descriptor: D,
    registration: RegistrationView,
    registers: Registers<U>,
    refused: int,
)
    requires
        0 <= registration.index <= refused < registration.regions.len(),
        registers_between(registers, registration.mode, registration.index, refused),
        registers(registration.mode, refused) is Err,
    ensures
        registration_calls(descriptor, registration, registers) == pass_calls(
            descriptor,
            registration.regions,
            registration.mode,
            registers,
            registration.index,
            refused + 1,
        ) + (match after_region_refused(registration) {
            Some(next) => registration_calls(descriptor, next, registers),
            None => Seq::empty(),
        }),
    decreases refused - registration.index,
{
    let RegistrationView { regions, mode, index, .. } = registration;
    let call = seq![register_call(descriptor, regions, mode, index, registers)];
    let after = match after_region_refused(registration) {
        Some(next) => registration_calls(descriptor, next, registers),
        None => Seq::empty(),
    };
    if index < refused {
        assert(registers(mode, index) is Ok);
        law_refused_region_ends_the_pass(
            descriptor,
            RegistrationView { index: index + 1, ..registration },
            registers,
            refused,
        );
        let rest = pass_calls(descriptor, regions, mode, registers, index + 1, refused + 1);
        assert(call + (rest + after) =~= (call + rest) + after);
        assert(call + rest =~= pass_calls(
            descriptor,
            regions,
            mode,
            registers,
            index,
            refused + 1,
        ));
    } else {
        assert(call =~= pass_calls(descriptor, regions, mode, registers, index, refused + 1));
        assert(call + Seq::empty() =~= call);
    }
}

/// The calls that deliver a handoff: each is made where none before it failed.
pub open spec fn delivery_calls<D, S>(
    descriptor: D,
    regions: Seq<UffdHandoffRegionSource>,
    errnos: Errnos,
    metadata: UffdHandoffMetadata,
    delivery: Delivery<S>,
) -> Seq<DeliveryCall<D, S>> {
    let serialize = seq![DeliveryCall::Serialize(metadata, delivery.document)];
    match delivery.document {
        Err(_) => serialize,
        Ok(document) => {
            let payload = payload_of(document@);
            let connect = serialize.push(DeliveryCall::Connect(delivery.connects));
            match delivery.connects {
                Err(_) => connect,
                Ok(stream) => {
                    let send = connect.push(
                        DeliveryCall::Send(
                            stream,
                            descriptor,
                            payload,
                            delivery.sent,
                            delivery.os_error,
                        ),
                    );
                    if send_error(delivery.sent, delivery.os_error, payload.len()) is Some {
                        send
                    } else {
                        let read = send.push(
                            DeliveryCall::ReadAck(stream, delivery.read, delivery.ack),
                        );
                        if ack_error::<()>(delivery.read, delivery.ack) is Some {
                            read
                        } else {
                            read.push(
                                DeliveryCall::Start(
                                    stream,
                                    session_of(regions, errnos),
                                    delivery.starts,
                                ),
                            )
                        }
                    }
                },
            }
        },
    }
}

/// The calls on descriptors of a whole handoff: those that create one, and where there is one,
/// those that register every region with it.
pub open spec fn descriptor_calls<U, D, S>(
    regions: Seq<UffdHandoffRegionSource>,
    minor: bool,
    world: World<U, D, S>,
) -> Seq<DescriptorCall<U, D>> {
    let creation = CreationView { regions, user_mode_only: false };
    let creating = if minor {
        minor_creation_calls(
            MinorCreationView { creation, close_on_exec: world.close_on_exec },
            world.opens,
            world.negotiates,
        )
    } else {
        creation_calls(creation, world.creates)
    };
    if regions.len() == 0 {
        Seq::empty()
    } else {
        match created(regions, minor, world) {
            Ok((descriptor, user_mode_only)) => creating + registration_calls(
                descriptor,
                start_of(regions, user_mode_only, minor),
                world.registers,
            ),
            Err(_) => creating,
        }
    }
}

/// The calls that deliver a whole handoff: none, where the regions were not registered.
pub open spec fn handoff_delivery_calls<U, D, S>(
    regions: Seq<UffdHandoffRegionSource>,
    minor: bool,
    errnos: Errnos,
    metadata: UffdHandoffMetadata,
    world: World<U, D, S>,
) -> Seq<DeliveryCall<D, S>> {
    if regions.len() == 0 {
        Seq::empty()
    } else {
        match created(regions, minor, world) {
            Ok((descriptor, user_mode_only)) => if registered(
                start_of(regions, user_mode_only, minor),
                world.registers,
            ) is Ok {
                delivery_calls(descriptor, regions, errnos, metadata, world.delivery)
            } else {
                Seq::empty()
            },
            Err(_) => Seq::empty(),
        }
    }
}

/// Where the registration succeeds, its last calls are one for each region, in their order, all
/// accepted and all for the faults that are reported: with write protection exactly if that is
/// reported, and with minor faults if these are asked for.
pub proof fn law_last_registration_is_the_reported_one<U, D>(
    descriptor: D,
    regions: Seq<UffdHandoffRegionSource>,
    user_mode_only: bool,
    minor: bool,
    registers: Registers<U>,
)
    requires
        regions.len() > 0,
    ensures
        ({
            let start = start_of(regions, user_mode_only, minor);
            let calls = registration_calls(descriptor, start, registers);
            let len = regions.len() as int;
            registration_end(start, registers) matches Ok(write_protect) ==> {
                let mode = if write_protect {
                    RegisterMode::MissingWriteProtect
                } else if minor {
                    RegisterMode::MissingMinor
                } else {
                    RegisterMode::Missing
                };
                &&& minor ==> !write_protect
                &&& registers_between(registers, mode, 0, len)
                &&& calls.len() >= len
                &&& calls.skip(calls.len() - len) == pass_calls(
                    descriptor,
                    regions,
                    mode,
                    registers,
                    0,
                    len,
                )
            }
        }),
{
    let start = start_of(regions, user_mode_only, minor);
    let again = RegistrationView { mode: RegisterMode::Missing, index: 0, ..start };
    let calls = registration_calls(descriptor, start, registers);
    let len = regions.len() as int;
    lemma_registration_pass(start, registers);
    if registers_between(registers, start.mode, 0, len) {
        law_accepted_regions_are_registered_once(descriptor, start, registers);
        assert(calls.skip(0) =~= calls);
    } else if registration_end(start, registers) is Ok {
        lemma_registration_pass(again, registers);
        let refused = lemma_first_refused(start.mode, registers, len);
        law_refused_region_ends_the_pass(descriptor, start, registers, refused);
        law_accepted_regions_are_registered_once(descriptor, again, registers);
        let first = pass_calls(descriptor, regions, start.mode, registers, 0, refused + 1);
        let second = pass_calls(descriptor, regions, again.mode, registers, 0, len);
        assert((first + second).skip(first.len() as int) =~= second);
    }
}

/// The first region that is refused, of some among which one is.
proof fn lemma_first_refused<U>(mode: RegisterMode, registers: Registers<U>, to: int) -> (refused:
    int)
    requires
        to >= 0,
        !registers_between(registers, mode, 0, to),
    ensures
        0 <= refused < to,
        registers(mode, refused) is Err,
        registers_between(registers, mode, 0, refused),
    decreases to,
{
    if registers_between(registers, mode, 0, to - 1) {
        to - 1
    } else {
        lemma_first_refused(mode, registers, to - 1)
    }
}

/// Whether a call belongs to a handoff with minor faults: none creates a plain descriptor, and none
/// registers a region for other faults.
pub open spec fn is_for_minor_faults<U, D>(call: DescriptorCall<U, D>) -> bool {
    match call {
        DescriptorCall::Create(_, _) => false,
        DescriptorCall::Open(_, _) => true,
        DescriptorCall::Negotiate(_, api, _) => api == minor_api(),
        DescriptorCall::Register(_, request, _) => request.mode == RegisterMode::MissingMinor,
    }
}

/// Asking for minor faults never leads to a plain descriptor, nor to a region that is registered
/// without them, whatever is refused.
pub proof fn law_minor_faults_are_never_given_up<U, D, S>(
    regions: Seq<UffdHandoffRegionSource>,
    world: World<U, D, S>,
)
    ensures
        forall|i: int|
            0 <= i < descriptor_calls(regions, true, world).len() ==> is_for_minor_faults(
                #[trigger] descriptor_calls(regions, true, world)[i],
            ),
{
    reveal_with_fuel(minor_creation_calls, 2);
    if let Ok((descriptor, user_mode_only)) = created(regions, true, world) {
        lemma_minor_registration_calls(
            descriptor,
            start_of(regions, user_mode_only, true),
            world.registers,
        );
    }
}

proof fn lemma_minor_registration_calls<U, D>(
    descriptor: D,
    registration: RegistrationView,
    registers: Registers<U>,
)
    requires
        registration.mode == RegisterMode::MissingMinor,
    ensures
        forall|i: int|
            0 <= i < registration_calls(descriptor, registration, registers).len()
                ==> is_for_minor_faults(
                #[trigger] registration_calls(descriptor, registration, registers)[i],
            ),
    decreases registration.regions.len() - registration.index,
{
    if 0 <= registration.index < registration.regions.len() {
        let next = RegistrationView { index: registration.index + 1, ..registration };
        lemma_minor_registration_calls(descriptor, next, registers);
        let calls = registration_calls(descriptor, registration, registers);
        let rest = registration_calls(descriptor, next, registers);
        assert forall|i: int| 0 <= i < calls.len() implies is_for_minor_faults(
            #[trigger] calls[i],
        ) by {
            if i > 0 {
                assert(calls[i] == rest[i - 1]);
            }
        }
    }
}

/// Whether two lists of regions have the same ranges of host memory.
pub open spec fn same_ranges(
    regions: Seq<UffdHandoffRegionSource>,
    others: Seq<UffdHandoffRegionSource>,
) -> bool {
    &&& regions.len() == others.len()
    &&& forall|i: int|
        0 <= i < regions.len() ==> {
            &&& (#[trigger] regions[i]).host_virt_addr == others[i].host_virt_addr
            &&& regions[i].len == others[i].len
        }
}

/// Where a region lies in guest memory, where it is backed and whether it is shared change neither
/// what becomes of a handoff nor the calls on its descriptor: only the ranges of host memory do.
pub proof fn law_only_host_ranges_decide<U, D, S>(
    regions: Seq<UffdHandoffRegionSource>,
    others: Seq<UffdHandoffRegionSource>,
    minor: bool,
    path: String,
    world: World<U, D, S>,
)
    requires
        same_ranges(regions, others),
    ensures
        handoff_end(regions, minor, path, world) == handoff_end(others, minor, path, world),
        descriptor_calls(regions, minor, world) == descriptor_calls(others, minor, world),
{
    reveal_with_fuel(creation_end, 2);
    reveal_with_fuel(creation_calls, 2);
    reveal_with_fuel(minor_creation_calls, 2);
    if let Ok((descriptor, user_mode_only)) = created(regions, minor, world) {
        lemma_only_host_ranges_decide(
            descriptor,
            start_of(regions, user_mode_only, minor),
            start_of(others, user_mode_only, minor),
            world.registers,
        );
    }
}

proof fn lemma_only_host_ranges_decide<U, D>(
    descriptor: D,
    registration: RegistrationView,
    other: RegistrationView,
    registers: Registers<U>,
)
    requires
        same_ranges(registration.regions, other.regions),
        other == (RegistrationView { regions: other.regions, ..registration }),
    ensures
        registration_end(registration, registers) == registration_end(other, registers),
        registration_end(registration, registers) matches Err((index, _)) ==> 0 <= index
            < registration.regions.len(),
        registration_calls(descriptor, registration, registers) == registration_calls(
            descriptor,
            other,
            registers,
        ),
    decreases
            (registration.mode == RegisterMode::MissingWriteProtect) as int,
            registration.regions.len() - registration.index,
{
    let RegistrationView { regions, mode, index, .. } = registration;
    if 0 <= index < regions.len() {
        assert(request_of(regions, mode, index) == request_of(other.regions, mode, index));
        if registers(mode, index) is Ok {
            lemma_only_host_ranges_decide(
                descriptor,
                RegistrationView { index: index + 1, ..registration },
                RegistrationView { index: index + 1, ..other },
                registers,
            );
        } else if mode == RegisterMode::MissingWriteProtect {
            lemma_only_host_ranges_decide(
                descriptor,
                RegistrationView { mode: RegisterMode::Missing, index: 0, ..registration },
                RegistrationView { mode: RegisterMode::Missing, index: 0, ..other },
                registers,
            );
        }
    }
}

} // verus!
