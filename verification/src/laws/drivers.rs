//! What handoffs do that are performed with functions for the system calls.

use vstd::prelude::*;

use crate::calls::{
    attempt_calls, creation_calls, delivery_calls, descriptor_calls, handoff_delivery_calls,
    minor_creation_calls, registration_calls, DeliveryCall, DescriptorCall,
};
use crate::cooperation::CooperationSession;
use crate::course::{
    created, creation_end, delivery_end, handoff_end, law_user_mode_only_is_truthful,
    minor_attempts, registration_end, Creates, Delivery, Registers, World,
};
use crate::creation::{
    may_close_on_exec, CreationView, DescriptorOptions, MinorCreation, MinorCreationView,
    PlainCreation, UffdioApi,
};
use crate::errno::Errnos;
use crate::error::UffdHandoffError;
use crate::handoff::{session_of, write_zero_error, RegisteredRegions};
use crate::laws::calls::{
    law_delivery_goes_step_by_step, law_last_registration_is_of_every_region,
    law_successful_handoff_registers_every_region,
};
use crate::laws::frames::law_payload_is_length_and_document;
use crate::laws::handoffs::law_metadata_have_every_field_of_every_region;
use crate::metadata::{describes, payload_of, UffdHandoffMetadata, UffdHandoffRegionSource};
use crate::perform::{
    called_by, create_uffd, create_uffd_minor, created_as, created_by, created_minor_as,
    deliver_uffd_handoff, delivered_by, is_described, opened_by, perform_uffd_handoff,
    register_regions, registered_as, registered_by,
};
use crate::registration::{
    start_of, RegisterMode, RegisterRequest, Registration, RegistrationView,
};
use crate::text::decimal;
use crate::turns::in_turn;

verus! {

/// Each call on descriptors is a call of the function for it, with the same arguments and the same
/// answer.
pub proof fn law_handoff_calls_its_functions<
    P,
    U,
    D,
    C: Fn(P, DescriptorOptions) -> (P, Result<D, U>),
    O: Fn(P, i32) -> (P, Result<D, std::io::Error>),
    N: Fn(P, &D, UffdioApi) -> (P, Result<(), std::io::Error>),
    R: Fn(P, &D, RegisterRequest) -> (P, Result<(), U>),
>(create: C, open: O, negotiate: N, register: R, from: P, call: DescriptorCall<U, D>, to: P)
    ensures
        called_by(create, open, negotiate, register)(from, call, to) <==> (match call {
            DescriptorCall::Create(options, answer) => call_ensures(
                create,
                (from, options),
                (to, answer),
            ),
            DescriptorCall::Open(flags, answer) => call_ensures(open, (from, flags), (to, answer)),
            DescriptorCall::Negotiate(descriptor, api, answer) => call_ensures(
                negotiate,
                (from, &descriptor, api),
                (to, answer),
            ),
            DescriptorCall::Register(descriptor, request, answer) => call_ensures(
                register,
                (from, &descriptor, request),
                (to, answer),
            ),
        }),
        created_by(create)(from, call, to) <==> (match call {
            DescriptorCall::Create(options, answer) => call_ensures(
                create,
                (from, options),
                (to, answer),
            ),
            _ => false,
        }),
        opened_by::<P, U, D, O, N>(open, negotiate)(from, call, to) <==> (match call {
            DescriptorCall::Open(flags, answer) => call_ensures(open, (from, flags), (to, answer)),
            DescriptorCall::Negotiate(descriptor, api, answer) => call_ensures(
                negotiate,
                (from, &descriptor, api),
                (to, answer),
            ),
            _ => false,
        }),
        registered_by(register)(from, call, to) <==> (match call {
            DescriptorCall::Register(descriptor, request, answer) => call_ensures(
                register,
                (from, &descriptor, request),
                (to, answer),
            ),
            _ => false,
        }),
{
}

/// Each call that delivers a handoff is a call of the function for it, with the same arguments and
/// the same answer.
pub proof fn law_delivery_calls_its_functions<
    P,
    D,
    S,
    Z: Fn(P, &UffdHandoffMetadata) -> (P, Result<Vec<u8>, serde_json::Error>),
    K: Fn(P) -> (P, Result<S, std::io::Error>),
    X: Fn(P, &S, &D, &[u8]) -> (P, isize, std::io::Error),
    A: Fn(P, &S) -> (P, Result<usize, std::io::Error>, u8),
    T: Fn(P, S, CooperationSession) -> (P, Result<(), std::io::Error>),
>(
    serialize: Z,
    connect: K,
    send: X,
    read_ack: A,
    start: T,
    from: P,
    call: DeliveryCall<D, S>,
    to: P,
)
    ensures
        delivered_by(serialize, connect, send, read_ack, start)(from, call, to) <==> (match call {
            DeliveryCall::Serialize(metadata, answer) => call_ensures(
                serialize,
                (from, &metadata),
                (to, answer),
            ),
            DeliveryCall::Connect(answer) => call_ensures(connect, (from,), (to, answer)),
            DeliveryCall::Send(stream, descriptor, payload, returned, os_error) => exists|
                bytes: &[u8],
            |
                {
                    &&& bytes@ == payload
                    &&& #[trigger] call_ensures(
                        send,
                        (from, &stream, &descriptor, bytes),
                        (to, returned, os_error),
                    )
                },
            DeliveryCall::ReadAck(stream, read, ack) => call_ensures(
                read_ack,
                (from, &stream),
                (to, read, ack),
            ),
            DeliveryCall::Start(stream, view, answer) => exists|session: CooperationSession|
                {
                    &&& session@ == view
                    &&& #[trigger] call_ensures(start, (from, stream, session), (to, answer))
                },
        }),
{
}

/// Creating a descriptor asks for one that is closed on `exec` and blocks, and of which nothing is
/// required; and, where that is refused and is for all faults, for one more, for user-mode faults
/// alone. The descriptor that was had is given back, with the registration of every region; or the
/// error of the last.
pub proof fn law_descriptor_is_created<P, U, D, C: Fn(P, DescriptorOptions) -> (P, Result<D, U>)>(
    platform: P,
    creation: PlainCreation,
    create: &C,
    done: (P, Result<(D, Registration), UffdHandoffError<U>>),
)
    requires
        call_ensures(create_uffd::<P, U, D, C>, (platform, creation, create), done),
    ensures
        exists|calls: Seq<DescriptorCall<U, D>>|
            {
                &&& #[trigger] in_turn(created_by(*create), platform, calls, done.0)
                &&& 1 <= calls.len() <= 2
                &&& calls.len() == 2 ==> !creation@.user_mode_only
                &&& calls[0] matches DescriptorCall::Create(options, answer)
                &&& options.close_on_exec && !options.non_blocking
                &&& options.features == 0 && options.ioctls == 0
                &&& options.user_mode_only == creation@.user_mode_only
                &&& calls.len() == 2 <==> answer is Err && !creation@.user_mode_only
                &&& calls.len() == 2 ==> {
                    &&& calls[1] matches DescriptorCall::Create(options, answer)
                    &&& options.close_on_exec && !options.non_blocking && options.user_mode_only
                    &&& options.features == 0 && options.ioctls == 0
                }
                &&& calls.last() matches DescriptorCall::Create(options, answer)
                &&& match answer {
                    Ok(descriptor) => {
                        &&& done.1 matches Ok((same, registration))
                        &&& same == descriptor
                        &&& registration@.regions == creation@.regions
                        &&& registration@.user_mode_only == options.user_mode_only
                        &&& registration@.mode == RegisterMode::MissingWriteProtect
                        &&& registration@.index == 0
                    },
                    Err(error) => done.1 == Err::<(D, Registration), UffdHandoffError<U>>(
                        UffdHandoffError::UffdCreate(error),
                    ),
                }
            },
{
    reveal_with_fuel(creation_calls, 2);
    reveal_with_fuel(creation_end, 2);
    let creates = choose|creates: Creates<D, U>|
        {
            let calls = #[trigger] creation_calls(creation@, creates);
            &&& in_turn(created_by(*create), platform, calls, done.0)
            &&& created_as(creation@, creates, done.1)
        };
    assert(in_turn(created_by(*create), platform, creation_calls(creation@, creates), done.0));
}

/// Creating a descriptor with minor faults makes one attempt, and where that fails and is for all
/// faults, another for user-mode faults alone. The descriptor that was had is given back, with the
/// registration of every region; or the error of the last attempt.
pub proof fn law_minor_descriptor_is_created<
    P,
    U,
    D,
    O: Fn(P, i32) -> (P, Result<D, std::io::Error>),
    N: Fn(P, &D, UffdioApi) -> (P, Result<(), std::io::Error>),
>(
    platform: P,
    creation: MinorCreation,
    open: &O,
    negotiate: &N,
    done: (P, Result<(D, Registration), UffdHandoffError<U>>),
)
    requires
        call_ensures(
            create_uffd_minor::<P, U, D, O, N>,
            (platform, creation, open, negotiate),
            done,
        ),
    ensures
        exists|opens: Creates<D, std::io::Error>, negotiates: Creates<(), std::io::Error>|
            {
                let only = creation@.creation.user_mode_only;
                let first = #[trigger] attempt_calls::<U, D>(creation@, opens, negotiates);
                let second = attempt_calls::<U, D>(
                    MinorCreationView {
                        creation: CreationView {
                            regions: creation@.creation.regions,
                            user_mode_only: true,
                        },
                        close_on_exec: creation@.close_on_exec,
                    },
                    opens,
                    negotiates,
                );
                let had = |only: bool| opens(only) is Ok && negotiates(only) is Ok;
                let last = only || !had(false);
                &&& in_turn(
                    opened_by::<P, U, D, O, N>(*open, *negotiate),
                    platform,
                    if only || had(false) {
                        first
                    } else {
                        first + second
                    },
                    done.0,
                )
                &&& if had(last) {
                    &&& done.1 matches Ok((descriptor, registration))
                    &&& opens(last) == Ok::<D, std::io::Error>(descriptor)
                    &&& registration@.regions == creation@.creation.regions
                    &&& registration@.user_mode_only == last
                    &&& registration@.mode == RegisterMode::MissingMinor
                    &&& registration@.index == 0
                } else {
                    done.1 == Err::<(D, Registration), UffdHandoffError<U>>(
                        UffdHandoffError::UffdMinorCreate(
                            if opens(last) is Err {
                                opens(last)->Err_0
                            } else {
                                negotiates(last)->Err_0
                            },
                        ),
                    )
                }
            },
{
    reveal_with_fuel(minor_creation_calls, 2);
    reveal_with_fuel(creation_end, 2);
    let (opens, negotiates) = choose|
        opens: Creates<D, std::io::Error>,
        negotiates: Creates<(), std::io::Error>,
    |
        {
            let calls = #[trigger] minor_creation_calls(creation@, opens, negotiates);
            &&& in_turn(opened_by::<P, U, D, O, N>(*open, *negotiate), platform, calls, done.0)
            &&& created_minor_as(
                creation@.creation,
                minor_attempts(opens, negotiates),
                done.1,
            )
        };
    let first = attempt_calls::<U, D>(creation@, opens, negotiates);
}

/// Registering the regions from the first on ends, where it succeeds, with one accepted call for
/// each of them, in their order, with the descriptor and for the whole region, and for the faults
/// that are reported. Where it fails, the last call was refused, and the error names its range.
pub proof fn law_regions_are_registered<
    P,
    U,
    D,
    R: Fn(P, &D, RegisterRequest) -> (P, Result<(), U>),
>(
    platform: P,
    descriptor: &D,
    registration: Registration,
    register: &R,
    minor: bool,
    done: (P, Result<RegisteredRegions, UffdHandoffError<U>>),
)
    requires
        registration@.regions.len() > 0,
        registration@.index == 0,
        minor ==> registration@.mode == RegisterMode::MissingMinor,
        !minor ==> registration@.mode == RegisterMode::MissingWriteProtect,
        call_ensures(
            register_regions::<P, U, D, R>,
            (platform, descriptor, registration, register),
            done,
        ),
    ensures
        exists|calls: Seq<DescriptorCall<U, D>>|
            {
                let regions = registration@.regions;
                let last = calls.skip(calls.len() - regions.len());
                &&& #[trigger] in_turn(registered_by(*register), platform, calls, done.0)
                &&& match done.1 {
                    Ok(all) => {
                        &&& all@.regions == regions
                        &&& all@.user_mode_only == registration@.user_mode_only
                        &&& calls.len() >= regions.len()
                        &&& forall|i: int|
                            0 <= i < regions.len() ==> {
                                &&& #[trigger] last[i] matches DescriptorCall::Register(
                                    of,
                                    request,
                                    answer,
                                )
                                &&& of == *descriptor
                                &&& request.host_virt_addr == regions[i].host_virt_addr
                                &&& request.len == regions[i].len
                                &&& (request.mode == RegisterMode::MissingWriteProtect
                                    <==> all@.write_protect)
                                &&& (request.mode == RegisterMode::MissingMinor <==> minor)
                                &&& answer is Ok
                            }
                    },
                    Err(failure) => {
                        &&& calls.len() > 0
                        &&& calls.last() matches DescriptorCall::Register(of, request, answer)
                        &&& of == *descriptor
                        &&& request.mode != RegisterMode::MissingWriteProtect
                        &&& answer matches Err(source)
                        &&& failure == UffdHandoffError::UffdRegister {
                            host_virt_addr: request.host_virt_addr,
                            len: request.len,
                            source,
                        }
                    },
                }
            },
{
    let start = registration@;
    let registers = choose|registers: Registers<U>|
        {
            let calls = #[trigger] registration_calls(*descriptor, start, registers);
            &&& in_turn(registered_by(*register), platform, calls, done.0)
            &&& registered_as(start, registers, done.1)
        };
    let calls = registration_calls(*descriptor, start, registers);
    assert(start == start_of(start.regions, start.user_mode_only, minor));
    match registration_end(start, registers) {
        Ok(write_protect) => {
            law_last_registration_is_of_every_region(
                *descriptor,
                start.regions,
                start.user_mode_only,
                minor,
                registers,
                write_protect,
            );
        },
        Err((index, source)) => {
            lemma_failed_registration_ends_with_the_refusal(*descriptor, start, registers);
        },
    }
    assert(in_turn(registered_by(*register), platform, calls, done.0));
}

/// A registration that fails ends with the call that was refused.
proof fn lemma_failed_registration_ends_with_the_refusal<U, D>(
    descriptor: D,
    registration: RegistrationView,
    registers: Registers<U>,
)
    requires
        registration_end(registration, registers) is Err,
    ensures
        ({
            let calls = registration_calls(descriptor, registration, registers);
            let (index, source) = registration_end(registration, registers)->Err_0;
            &&& calls.len() > 0
            &&& calls.last() matches DescriptorCall::Register(of, request, answer)
            &&& of == descriptor
            &&& request.host_virt_addr == registration.regions[index].host_virt_addr
            &&& request.len == registration.regions[index].len
            &&& request.mode != RegisterMode::MissingWriteProtect
            &&& answer == Err::<(), U>(source)
        }),
    decreases
            (registration.mode == RegisterMode::MissingWriteProtect) as int,
            registration.regions.len() - registration.index,
{
    let RegistrationView { mode, index, .. } = registration;
    let calls = registration_calls(descriptor, registration, registers);
    match registers(mode, index) {
        Ok(()) => {
            let next = RegistrationView { index: index + 1, ..registration };
            lemma_failed_registration_ends_with_the_refusal(descriptor, next, registers);
            assert(calls.last() == registration_calls(descriptor, next, registers).last());
        },
        Err(_) => {
            if mode == RegisterMode::MissingWriteProtect {
                let again = RegistrationView {
                    mode: RegisterMode::Missing,
                    index: 0,
                    ..registration
                };
                lemma_failed_registration_ends_with_the_refusal(descriptor, again, registers);
                assert(calls.last() == registration_calls(descriptor, again, registers).last());
            }
        },
    }
}

/// A handoff that succeeds gives metadata that have every field of every region. Its last calls on
/// the descriptor are one for each region, in their order, for the whole region and accepted, and
/// for the faults that the metadata report. It then serialized these metadata; connected to the
/// peer; sent the payload of the document, whole, with the descriptor that has the regions; read
/// the byte 1; and started the session of the regions on the same connection.
pub proof fn law_handoff_is_performed<
    P,
    U,
    D,
    S,
    C: Fn(P, DescriptorOptions) -> (P, Result<D, U>),
    O: Fn(P, i32) -> (P, Result<D, std::io::Error>),
    N: Fn(P, &D, UffdioApi) -> (P, Result<(), std::io::Error>),
    R: Fn(P, &D, RegisterRequest) -> (P, Result<(), U>),
    Z: Fn(P, &UffdHandoffMetadata) -> (P, Result<Vec<u8>, serde_json::Error>),
    K: Fn(P) -> (P, Result<S, std::io::Error>),
    X: Fn(P, &S, &D, &[u8]) -> (P, isize, std::io::Error),
    A: Fn(P, &S) -> (P, Result<usize, std::io::Error>, u8),
    T: Fn(P, S, CooperationSession) -> (P, Result<(), std::io::Error>),
>(
    platform: P,
    regions: Vec<UffdHandoffRegionSource>,
    minor: bool,
    pid: u32,
    path: String,
    errnos: Errnos,
    create: C,
    open: O,
    negotiate: N,
    register: R,
    serialize: Z,
    connect: K,
    send: X,
    read_ack: A,
    start: T,
    done: (P, Result<UffdHandoffMetadata, UffdHandoffError<U>>),
)
    requires
        call_ensures(
            perform_uffd_handoff::<P, U, D, S, C, O, N, R, Z, K, X, A, T>,
            (
                platform,
                regions,
                minor,
                pid,
                path,
                errnos,
                create,
                open,
                negotiate,
                register,
                serialize,
                connect,
                send,
                read_ack,
                start,
            ),
            done,
        ),
        done.1 is Ok,
    ensures
        ({
            let metadata = done.1->Ok_0;
            &&& metadata.protocol@ == "meridian-cloud-hypervisor-uffd-handoff"@
            &&& metadata.version == 2
            &&& metadata.pid == pid
            &&& metadata.regions@.len() == regions@.len()
            &&& forall|i: int|
                0 <= i < regions@.len() ==> {
                    let record = #[trigger] metadata.regions@[i];
                    &&& record.guest_phys_addr == regions@[i].guest_phys_addr
                    &&& record.len == regions@[i].len
                    &&& record.host_virt_addr == regions@[i].host_virt_addr
                    &&& record.file_offset == regions@[i].file_offset
                    &&& record.backing_dev == regions@[i].backing_dev
                    &&& record.backing_ino == regions@[i].backing_ino
                    &&& record.shared == regions@[i].shared
                }
        }),
        exists|calls: Seq<DescriptorCall<U, D>>, deliveries: Seq<DeliveryCall<D, S>>, between: P|
            {
                let metadata = done.1->Ok_0;
                let last = calls.skip(calls.len() - regions@.len());
                &&& #[trigger] in_turn(
                    called_by(create, open, negotiate, register),
                    platform,
                    calls,
                    between,
                )
                &&& #[trigger] in_turn(
                    delivered_by(serialize, connect, send, read_ack, start),
                    between,
                    deliveries,
                    done.0,
                )
                &&& deliveries.len() == 5
                &&& deliveries[0] matches DeliveryCall::Serialize(described, Ok(document))
                &&& described == metadata
                &&& deliveries[1] matches DeliveryCall::Connect(Ok(stream))
                &&& deliveries[2] matches DeliveryCall::Send(to, descriptor, payload, sent, _)
                &&& to == stream
                &&& payload == payload_of(document@)
                &&& sent == 4 + document@.len()
                &&& deliveries[3] matches DeliveryCall::ReadAck(from, Ok(count), ack)
                &&& from == stream
                &&& count > 0
                &&& ack == 1
                &&& deliveries[4] matches DeliveryCall::Start(on, session, Ok(_))
                &&& on == stream
                &&& session == session_of(regions@, errnos)
                &&& calls.len() >= regions@.len() > 0
                &&& forall|i: int|
                    0 <= i < regions@.len() ==> {
                        &&& #[trigger] last[i] matches DescriptorCall::Register(of, request, answer)
                        &&& of == descriptor
                        &&& request.host_virt_addr == regions@[i].host_virt_addr
                        &&& request.len == regions@[i].len
                        &&& (request.mode == RegisterMode::MissingWriteProtect
                            <==> metadata.registered_write_protect)
                        &&& (request.mode == RegisterMode::MissingMinor <==> minor)
                        &&& answer is Ok
                    }
            },
{
    let (metadata, world, between) = choose|
        metadata: UffdHandoffMetadata,
        world: World<U, D, S>,
        between: P,
    |
        {
            &&& minor ==> may_close_on_exec(world.close_on_exec)
            &&& #[trigger] is_described(regions@, minor, pid, metadata, world)
            &&& #[trigger] in_turn(
                called_by(create, open, negotiate, register),
                platform,
                descriptor_calls(regions@, minor, world),
                between,
            )
            &&& in_turn(
                delivered_by(serialize, connect, send, read_ack, start),
                between,
                handoff_delivery_calls(regions@, minor, errnos, metadata, world),
                done.0,
            )
            &&& done.1 == (match handoff_end(regions@, minor, path, world) {
                Ok(_) => Ok::<UffdHandoffMetadata, UffdHandoffError<U>>(metadata),
                Err(error) => Err(error),
            })
        };
    let calls = descriptor_calls(regions@, minor, world);
    let deliveries = handoff_delivery_calls(regions@, minor, errnos, metadata, world);
    let (user_mode_only, write_protect) = handoff_end(regions@, minor, path, world)->Ok_0;
    law_successful_handoff_registers_every_region(
        regions@,
        minor,
        path,
        world,
        user_mode_only,
        write_protect,
    );
    lemma_successful_handoff_is_delivered(
        regions@,
        minor,
        path,
        errnos,
        pid,
        metadata,
        world,
        user_mode_only,
        write_protect,
    );
    law_metadata_have_every_field_of_every_region(
        metadata,
        regions@,
        pid,
        user_mode_only,
        write_protect,
    );
    assert(in_turn(
        called_by(create, open, negotiate, register),
        platform,
        calls,
        between,
    ));
    assert(in_turn(
        delivered_by(serialize, connect, send, read_ack, start),
        between,
        deliveries,
        done.0,
    ));
}

/// What a handoff that succeeds delivers, and that this describes it.
proof fn lemma_successful_handoff_is_delivered<U, D, S>(
    regions: Seq<UffdHandoffRegionSource>,
    minor: bool,
    path: String,
    errnos: Errnos,
    pid: u32,
    metadata: UffdHandoffMetadata,
    world: World<U, D, S>,
    user_mode_only: bool,
    write_protect: bool,
)
    requires
        is_described(regions, minor, pid, metadata, world),
        handoff_end(regions, minor, path, world) matches Ok(reported) && reported == (
            user_mode_only,
            write_protect,
        ),
    ensures
        regions.len() > 0,
        describes(metadata, regions, pid, user_mode_only, write_protect),
        ({
            let deliveries = handoff_delivery_calls(regions, minor, errnos, metadata, world);
            &&& deliveries.len() == 5
            &&& deliveries[0] matches DeliveryCall::Serialize(described, Ok(document))
            &&& described == metadata
            &&& deliveries[1] matches DeliveryCall::Connect(Ok(stream))
            &&& deliveries[2] matches DeliveryCall::Send(to, descriptor, payload, sent, _)
            &&& to == stream
            &&& payload == payload_of(document@)
            &&& sent == 4 + document@.len()
            &&& deliveries[3] matches DeliveryCall::ReadAck(from, Ok(count), ack)
            &&& from == stream
            &&& count > 0
            &&& ack == 1
            &&& deliveries[4] matches DeliveryCall::Start(on, session, Ok(_))
            &&& on == stream
            &&& session == session_of(regions, errnos)
            &&& minor ==> (world.opens)(user_mode_only) == Ok::<D, std::io::Error>(descriptor)
            &&& !minor ==> (world.creates)(user_mode_only) == Ok::<D, U>(descriptor)
        }),
{
    law_user_mode_only_is_truthful(regions, world.creates);
    law_user_mode_only_is_truthful(regions, minor_attempts(world.opens, world.negotiates));
    if let Ok((descriptor, only)) = created(regions, minor, world) {
        law_delivery_goes_step_by_step(descriptor, regions, errnos, metadata, world.delivery);
        if let Ok(document) = world.delivery.document {
            law_payload_is_length_and_document(document@);
        }
    }
}

/// A handoff that fails made the calls up to the step that failed, and fails with its error. What
/// it serialized, if it did, describes every region.
pub proof fn law_handoff_fails_as_its_calls_tell<
    P,
    U,
    D,
    S,
    C: Fn(P, DescriptorOptions) -> (P, Result<D, U>),
    O: Fn(P, i32) -> (P, Result<D, std::io::Error>),
    N: Fn(P, &D, UffdioApi) -> (P, Result<(), std::io::Error>),
    R: Fn(P, &D, RegisterRequest) -> (P, Result<(), U>),
    Z: Fn(P, &UffdHandoffMetadata) -> (P, Result<Vec<u8>, serde_json::Error>),
    K: Fn(P) -> (P, Result<S, std::io::Error>),
    X: Fn(P, &S, &D, &[u8]) -> (P, isize, std::io::Error),
    A: Fn(P, &S) -> (P, Result<usize, std::io::Error>, u8),
    T: Fn(P, S, CooperationSession) -> (P, Result<(), std::io::Error>),
>(
    platform: P,
    regions: Vec<UffdHandoffRegionSource>,
    minor: bool,
    pid: u32,
    path: String,
    errnos: Errnos,
    create: C,
    open: O,
    negotiate: N,
    register: R,
    serialize: Z,
    connect: K,
    send: X,
    read_ack: A,
    start: T,
    done: (P, Result<UffdHandoffMetadata, UffdHandoffError<U>>),
)
    requires
        call_ensures(
            perform_uffd_handoff::<P, U, D, S, C, O, N, R, Z, K, X, A, T>,
            (
                platform,
                regions,
                minor,
                pid,
                path,
                errnos,
                create,
                open,
                negotiate,
                register,
                serialize,
                connect,
                send,
                read_ack,
                start,
            ),
            done,
        ),
        done.1 is Err,
    ensures
        exists|metadata: UffdHandoffMetadata, world: World<U, D, S>, between: P|
            {
                &&& #[trigger] in_turn(
                    called_by(create, open, negotiate, register),
                    platform,
                    descriptor_calls(regions@, minor, world),
                    between,
                )
                &&& #[trigger] in_turn(
                    delivered_by(serialize, connect, send, read_ack, start),
                    between,
                    handoff_delivery_calls(regions@, minor, errnos, metadata, world),
                    done.0,
                )
                &&& handoff_end(regions@, minor, path, world) matches Err(error)
                &&& done.1 == Err::<UffdHandoffMetadata, UffdHandoffError<U>>(error)
                &&& handoff_delivery_calls(regions@, minor, errnos, metadata, world).len() > 0
                    ==> describes(
                    metadata,
                    regions@,
                    pid,
                    metadata.user_mode_only,
                    metadata.registered_write_protect,
                )
                &&& minor ==> world.close_on_exec == 524_288 || world.close_on_exec == 4_194_304
            },
{
}

/// Delivering a handoff describes its regions, and makes the calls of the delivery up to the one
/// that fails. It gives the metadata where none does: the document was had, the peer was connected
/// to, as many bytes were sent as the payload has, a byte was read and is 1, and the session was
/// started. Otherwise it fails with the error of the one that failed.
pub proof fn law_registered_regions_are_delivered<
    P,
    U,
    D,
    S,
    Z: Fn(P, &UffdHandoffMetadata) -> (P, Result<Vec<u8>, serde_json::Error>),
    K: Fn(P) -> (P, Result<S, std::io::Error>),
    X: Fn(P, &S, &D, &[u8]) -> (P, isize, std::io::Error),
    A: Fn(P, &S) -> (P, Result<usize, std::io::Error>, u8),
    T: Fn(P, S, CooperationSession) -> (P, Result<(), std::io::Error>),
>(
    platform: P,
    registered: RegisteredRegions,
    descriptor: &D,
    pid: u32,
    path: String,
    errnos: Errnos,
    serialize: Z,
    connect: K,
    send: X,
    read_ack: A,
    start: T,
    done: (P, Result<UffdHandoffMetadata, UffdHandoffError<U>>),
)
    requires
        call_ensures(
            deliver_uffd_handoff::<P, U, D, S, Z, K, X, A, T>,
            (
                platform,
                registered,
                descriptor,
                pid,
                path,
                errnos,
                serialize,
                connect,
                send,
                read_ack,
                start,
            ),
            done,
        ),
    ensures
        exists|metadata: UffdHandoffMetadata, delivery: Delivery<S>|
            {
                let regions = registered@.regions;
                let only = registered@.user_mode_only;
                let protect = registered@.write_protect;
                &&& in_turn(
                    delivered_by(serialize, connect, send, read_ack, start),
                    platform,
                    #[trigger] delivery_calls(
                        *descriptor,
                        registered@.regions,
                        errnos,
                        metadata,
                        delivery,
                    ),
                    done.0,
                )
                &&& describes(metadata, regions, pid, only, protect)
                &&& match done.1 {
                    Ok(given) => {
                        &&& given == metadata
                        &&& delivery.document matches Ok(document)
                        &&& delivery.connects is Ok
                        &&& delivery.sent == 4 + document@.len()
                        &&& delivery.read matches Ok(count)
                        &&& count > 0
                        &&& delivery.ack == 1
                        &&& delivery.starts is Ok
                    },
                    Err(failure) => match delivery.document {
                        Err(error) => failure == UffdHandoffError::<U>::Serialize(error),
                        Ok(document) => match delivery.connects {
                            Err(source) => failure == UffdHandoffError::<U>::SocketConnect {
                                path,
                                source,
                            },
                            Ok(_) => if delivery.sent < 0 {
                                failure == UffdHandoffError::<U>::SocketSend(delivery.os_error)
                            } else if delivery.sent != 4 + document@.len() {
                                failure == UffdHandoffError::<U>::SocketSend(
                                    write_zero_error(
                                        "short sendmsg: sent "@ + decimal(delivery.sent as nat)
                                            + " of "@ + decimal(4 + document@.len())
                                            + " payload bytes"@,
                                    ),
                                )
                            } else {
                                match delivery.read {
                                    Err(error) => failure == UffdHandoffError::<U>::AckRead(error),
                                    Ok(count) => if count == 0 {
                                        failure == UffdHandoffError::<U>::AckEof
                                    } else if delivery.ack != 1 {
                                        failure == UffdHandoffError::<U>::AckUnexpected(
                                            delivery.ack,
                                        )
                                    } else {
                                        &&& delivery.starts matches Err(error)
                                        &&& failure
                                            == UffdHandoffError::<U>::CooperationThreadSpawn(error)
                                    },
                                }
                            },
                        },
                    },
                }
            },
{
    let regions = registered@.regions;
    let (metadata, delivery) = choose|metadata: UffdHandoffMetadata, delivery: Delivery<S>|
        {
            let calls = #[trigger] delivery_calls(
                *descriptor,
                regions,
                errnos,
                metadata,
                delivery,
            );
            &&& describes(
                metadata,
                regions,
                pid,
                registered@.user_mode_only,
                registered@.write_protect,
            )
            &&& in_turn(
                delivered_by(serialize, connect, send, read_ack, start),
                platform,
                calls,
                done.0,
            )
            &&& done.1 == (match delivery_end::<U, S>(path, delivery) {
                None => Ok::<UffdHandoffMetadata, UffdHandoffError<U>>(metadata),
                Some(error) => Err(error),
            })
        };
    if let Ok(document) = delivery.document {
        law_payload_is_length_and_document(document@);
    }
    assert(in_turn(
        delivered_by(serialize, connect, send, read_ack, start),
        platform,
        delivery_calls(*descriptor, regions, errnos, metadata, delivery),
        done.0,
    ));
}

} // verus!
