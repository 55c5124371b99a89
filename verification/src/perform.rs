//! Handoffs, performed.
//!
//! The functions here run the steps of a handoff with functions that make the system calls. Each of
//! these takes the state of the platform and gives it back, so that the contracts tell all calls
//! that are made, in their order, and what they come to.

use vstd::prelude::*;

use crate::calls::{
    attempt_calls, creation_calls, delivery_calls, descriptor_calls, handoff_delivery_calls,
    law_accepted_regions_are_registered_once, law_refused_region_ends_the_pass,
    minor_creation_calls, pass_calls, register_call, registration_calls, DeliveryCall,
    DescriptorCall,
};
use crate::cooperation::{CooperationSession, SessionView};
use crate::course::{
    created, creation_end, delivery_end, handoff_end, lemma_registration_pass, minor_attempts,
    refused_region, registered, registers_between, registration_end, Creates, Delivery, Registers,
    World,
};
use crate::creation::{
    after_refusal, begin_uffd_handoff, may_close_on_exec, minor_api, plain_options, Creation,
    CreationView, DescriptorOptions, MinorCreation, PlainCreation, UffdioApi,
};
use crate::errno::Errnos;
use crate::error::UffdHandoffError;
use crate::handoff::{RegisteredRegions, RegisteredView};
use crate::metadata::{describes, UffdHandoffMetadata, UffdHandoffRegionSource};
use crate::registration::{
    start_of, RegisterMode, RegisterRequest, Registration, RegistrationStep, RegistrationView,
};
use crate::turns::{
    in_turn, lemma_made_by_more, lemma_more_calls, lemma_no_call, lemma_one_call,
    lemma_one_more_call, Made,
};

verus! {

/// The calls that `create` makes.
pub open spec fn created_by<P, U, D, C: Fn(P, DescriptorOptions) -> (P, Result<D, U>)>(
    create: C,
) -> Made<P, DescriptorCall<U, D>> {
    |from: P, call: DescriptorCall<U, D>, to: P|
        call matches DescriptorCall::Create(options, answer) && call_ensures(
            create,
            (from, options),
            (to, answer),
        )
}

/// Whether this is what the attempts to create a descriptor come to.
pub open spec fn created_as<D, U>(
    creation: CreationView,
    creates: Creates<D, U>,
    created: Result<(D, Registration), UffdHandoffError<U>>,
) -> bool {
    match creation_end(creation, creates) {
        Ok((descriptor, user_mode_only)) => {
            &&& created matches Ok((same, registration))
            &&& same == descriptor
            &&& registration@ == start_of(creation.regions, user_mode_only, false)
        },
        Err(error) => created == Err::<(D, Registration), UffdHandoffError<U>>(
            UffdHandoffError::UffdCreate(error),
        ),
    }
}

/// Creates a descriptor, with one retry.
pub fn create_uffd<P, U, D, C: Fn(P, DescriptorOptions) -> (P, Result<D, U>)>(
    platform: P,
    creation: PlainCreation,
    create: &C,
) -> (done: (P, Result<(D, Registration), UffdHandoffError<U>>))
    requires
        forall|at: P, options: DescriptorOptions| #[trigger] call_requires(*create, (at, options)),
    ensures
        exists|creates: Creates<D, U>|
            {
                let calls = #[trigger] creation_calls(creation@, creates);
                &&& in_turn(created_by(*create), platform, calls, done.0)
                &&& created_as(creation@, creates, done.1)
            },
{
    let ghost start = creation@;
    let ghost made = created_by(*create);
    let ghost mut creates: Creates<D, U> = |user_mode_only: bool| arbitrary();
    let ghost mut calls: Seq<DescriptorCall<U, D>> = Seq::empty();
    let mut at = platform;
    let mut attempt = creation;
    proof {
        lemma_no_call(made, at);
    }
    loop
        invariant
            forall|at: P, options: DescriptorOptions| #[trigger]
                call_requires(*create, (at, options)),
            start == creation@,
            made == created_by(*create),
            in_turn(made, platform, calls, at),
            attempt@ == start ==> calls == Seq::<DescriptorCall<U, D>>::empty(),
            attempt@ != start ==> {
                &&& after_refusal(start) == Some(attempt@)
                &&& creates(false) is Err
                &&& calls == seq![DescriptorCall::Create(plain_options(false), creates(false))]
            },
        decreases !attempt@.user_mode_only as int,
    {
        let ghost now = attempt@;
        let ghost before = at;
        let (after, outcome) = create(at, attempt.options());
        at = after;
        proof {
            let earlier = creates;
            creates =
            |user_mode_only: bool|
                if user_mode_only == now.user_mode_only {
                    outcome
                } else {
                    earlier(user_mode_only)
                };
            let call = DescriptorCall::Create(plain_options(now.user_mode_only), outcome);
            assert(made(before, call, after));
            lemma_one_more_call(made, platform, calls, before, call, after);
            calls = calls.push(call);
            reveal_with_fuel(creation_end, 2);
            reveal_with_fuel(creation_calls, 2);
            if outcome is Ok || now.user_mode_only {
                assert(calls =~= creation_calls(start, creates));
            } else {
                assert(calls =~= seq![call]);
            }
        }
        match outcome {
            Ok(descriptor) => {
                return (at, Ok((descriptor, attempt.created())));
            },
            Err(error) => match attempt.refused(error) {
                Ok(retry) => {
                    attempt = retry;
                },
                Err(failure) => {
                    return (at, Err(failure));
                },
            },
        }
    }
}

/// The calls that `open` and `negotiate` make.
pub open spec fn opened_by<
    P,
    U,
    D,
    O: Fn(P, i32) -> (P, Result<D, std::io::Error>),
    N: Fn(P, &D, UffdioApi) -> (P, Result<(), std::io::Error>),
>(open: O, negotiate: N) -> Made<P, DescriptorCall<U, D>> {
    |from: P, call: DescriptorCall<U, D>, to: P|
        match call {
            DescriptorCall::Open(flags, answer) => call_ensures(open, (from, flags), (to, answer)),
            DescriptorCall::Negotiate(descriptor, api, answer) => call_ensures(
                negotiate,
                (from, &descriptor, api),
                (to, answer),
            ),
            _ => false,
        }
}

/// Whether this is what the attempts to create a descriptor with minor faults come to.
pub open spec fn created_minor_as<D, U>(
    creation: CreationView,
    attempts: Creates<D, std::io::Error>,
    created: Result<(D, Registration), UffdHandoffError<U>>,
) -> bool {
    match creation_end(creation, attempts) {
        Ok((descriptor, user_mode_only)) => {
            &&& created matches Ok((same, registration))
            &&& same == descriptor
            &&& registration@ == start_of(creation.regions, user_mode_only, true)
        },
        Err(error) => created == Err::<(D, Registration), UffdHandoffError<U>>(
            UffdHandoffError::UffdMinorCreate(error),
        ),
    }
}

/// Creates a descriptor with minor faults, with one retry: opens its file and enables its
/// features. One whose features were not enabled is dropped before the next attempt.
pub fn create_uffd_minor<
    P,
    U,
    D,
    O: Fn(P, i32) -> (P, Result<D, std::io::Error>),
    N: Fn(P, &D, UffdioApi) -> (P, Result<(), std::io::Error>),
>(platform: P, creation: MinorCreation, open: &O, negotiate: &N) -> (done: (
    P,
    Result<(D, Registration), UffdHandoffError<U>>,
))
    requires
        forall|at: P, flags: i32| #[trigger] call_requires(*open, (at, flags)),
        forall|at: P, descriptor: &D, api: UffdioApi| #[trigger]
            call_requires(*negotiate, (at, descriptor, api)),
    ensures
        exists|opens: Creates<D, std::io::Error>, negotiates: Creates<(), std::io::Error>|
            {
                let calls = #[trigger] minor_creation_calls(creation@, opens, negotiates);
                let attempts = minor_attempts(opens, negotiates);
                &&& in_turn(opened_by::<P, U, D, O, N>(*open, *negotiate), platform, calls, done.0)
                &&& created_minor_as(creation@.creation, attempts, done.1)
            },
{
    let ghost start = creation@;
    let ghost made = opened_by::<P, U, D, O, N>(*open, *negotiate);
    let ghost mut opens: Creates<D, std::io::Error> = |user_mode_only: bool| arbitrary();
    let ghost mut negotiates: Creates<(), std::io::Error> = |user_mode_only: bool| arbitrary();
    let ghost mut calls: Seq<DescriptorCall<U, D>> = Seq::empty();
    let mut at = platform;
    let mut attempt = creation;
    proof {
        lemma_no_call(made, at);
    }
    loop
        invariant
            forall|at: P, flags: i32| #[trigger] call_requires(*open, (at, flags)),
            forall|at: P, descriptor: &D, api: UffdioApi| #[trigger]
                call_requires(*negotiate, (at, descriptor, api)),
            start == creation@,
            made == opened_by::<P, U, D, O, N>(*open, *negotiate),
            in_turn(made, platform, calls, at),
            attempt@.close_on_exec == start.close_on_exec,
            attempt@ == start ==> calls == Seq::<DescriptorCall<U, D>>::empty(),
            attempt@ != start ==> {
                &&& after_refusal(start.creation) == Some(attempt@.creation)
                &&& minor_attempts(opens, negotiates)(false) is Err
                &&& calls == attempt_calls::<U, D>(start, opens, negotiates)
            },
        decreases !attempt@.creation.user_mode_only as int,
    {
        let ghost now = attempt@;
        let ghost only = now.creation.user_mode_only;
        let ghost before = at;
        let ghost earlier_calls = calls;
        let ghost earlier_opens = opens;
        let ghost earlier_negotiates = negotiates;
        let flags: i32 = attempt.open_flags();
        let (after, outcome) = open(at, flags);
        at = after;
        proof {
            reveal_with_fuel(creation_end, 2);
            reveal_with_fuel(minor_creation_calls, 2);
            opens =
            |user_mode_only: bool|
                if user_mode_only == only {
                    outcome
                } else {
                    earlier_opens(user_mode_only)
                };
            let call = DescriptorCall::Open(flags, outcome);
            assert(made(before, call, after));
            lemma_one_more_call(made, platform, calls, before, call, after);
            calls = calls.push(call);
        }
        match outcome {
            Ok(descriptor) => {
                let negotiation = attempt.opened();
                let ghost opened = at;
                let (after, enabled) = negotiate(at, &descriptor, negotiation.api());
                at = after;
                proof {
                    negotiates =
                    |user_mode_only: bool|
                        if user_mode_only == only {
                            enabled
                        } else {
                            earlier_negotiates(user_mode_only)
                        };
                    let call = DescriptorCall::Negotiate(descriptor, minor_api(), enabled);
                    assert(made(opened, call, after));
                    lemma_one_more_call(made, platform, calls, opened, call, after);
                    calls = calls.push(call);
                    assert(calls =~= earlier_calls + attempt_calls::<U, D>(now, opens, negotiates));
                    if enabled is Ok || only {
                        assert(calls =~= minor_creation_calls(start, opens, negotiates));
                    }
                }
                match enabled {
                    Ok(()) => {
                        return (at, Ok((descriptor, negotiation.negotiated())));
                    },
                    Err(error) => match negotiation.refused(error) {
                        Ok(retry) => {
                            attempt = retry;
                        },
                        Err(failure) => {
                            return (at, Err(failure));
                        },
                    },
                }
            },
            Err(error) => {
                proof {
                    assert(calls =~= earlier_calls + attempt_calls::<U, D>(now, opens, negotiates));
                    if only {
                        assert(calls =~= minor_creation_calls(start, opens, negotiates));
                    }
                }
                match attempt.refused(error) {
                    Ok(retry) => {
                        attempt = retry;
                    },
                    Err(failure) => {
                        return (at, Err(failure));
                    },
                }
            },
        }
    }
}

/// The calls that `register` makes.
pub open spec fn registered_by<P, U, D, R: Fn(P, &D, RegisterRequest) -> (P, Result<(), U>)>(
    register: R,
) -> Made<P, DescriptorCall<U, D>> {
    |from: P, call: DescriptorCall<U, D>, to: P|
        call matches DescriptorCall::Register(descriptor, request, answer) && call_ensures(
            register,
            (from, &descriptor, request),
            (to, answer),
        )
}

/// Whether this is what the registration comes to.
pub open spec fn registered_as<U>(
    registration: RegistrationView,
    registers: Registers<U>,
    registered: Result<RegisteredRegions, UffdHandoffError<U>>,
) -> bool {
    match registration_end(registration, registers) {
        Ok(write_protect) => {
            &&& registered matches Ok(regions)
            &&& regions@ == (RegisteredView {
                regions: registration.regions,
                user_mode_only: registration.user_mode_only,
                write_protect,
            })
        },
        Err((index, source)) => registered == Err::<RegisteredRegions, UffdHandoffError<U>>(
            refused_region(registration.regions, index, source),
        ),
    }
}

/// Registers every region with the descriptor, again without write protection where a region
/// rejects that.
#[verifier::rlimit(30)]
pub fn register_regions<P, U, D, R: Fn(P, &D, RegisterRequest) -> (P, Result<(), U>)>(
    platform: P,
    descriptor: &D,
    registration: Registration,
    register: &R,
) -> (done: (P, Result<RegisteredRegions, UffdHandoffError<U>>))
    requires
        forall|at: P, uffd: &D, request: RegisterRequest| #[trigger]
            call_requires(*register, (at, uffd, request)),
    ensures
        exists|registers: Registers<U>|
            {
                let calls = #[trigger] registration_calls(*descriptor, registration@, registers);
                &&& in_turn(registered_by(*register), platform, calls, done.0)
                &&& registered_as(registration@, registers, done.1)
            },
{
    let ghost start = registration@;
    let ghost made = registered_by(*register);
    let ghost mut registers: Registers<U> = |mode: RegisterMode, index: int| arbitrary();
    // Where a region rejected write protection.
    let ghost mut rejected: int = 0;
    let mut at = platform;
    let mut pending = registration;
    proof {
        lemma_no_call(made, at);
        assert(calls_so_far(*descriptor, start, registers, rejected, start) =~= Seq::empty());
    }
    loop
        invariant
            forall|at: P, uffd: &D, request: RegisterRequest| #[trigger]
                call_requires(*register, (at, uffd, request)),
            start == registration@,
            made == registered_by(*register),
            pending@ != start ==> 0 <= start.index < start.regions.len(),
            is_on_the_way(start, registers, rejected, pending@),
            in_turn(
                made,
                platform,
                calls_so_far(*descriptor, start, registers, rejected, pending@),
                at,
            ),
        decreases
                (pending@.mode == RegisterMode::MissingWriteProtect) as int,
                pending@.regions.len() - pending@.index,
    {
        let ghost now = pending@;
        let ghost before = at;
        let ghost earlier = registers;
        let request = pending.request();
        let (after, outcome) = register(at, descriptor, request);
        at = after;
        let ghost calls = calls_so_far(*descriptor, start, earlier, rejected, now);
        let ghost call = DescriptorCall::Register(*descriptor, request, outcome);
        proof {
            registers =
            |mode: RegisterMode, index: int|
                if mode == now.mode && index == now.index {
                    outcome
                } else {
                    earlier(mode, index)
                };
            assert(made(before, call, after));
            lemma_one_more_call(made, platform, calls, before, call, after);
            assert(is_on_the_way(start, registers, rejected, now));
            assert(calls_so_far(*descriptor, start, registers, rejected, now) =~= calls);
            if outcome is Ok && now.index + 1 == now.regions.len() || outcome is Err && now.mode
                != RegisterMode::MissingWriteProtect {
                lemma_registration_has_ended(*descriptor, start, registers, rejected, now);
            }
        }
        match outcome {
            Ok(()) => match pending.registered() {
                RegistrationStep::Next(next) => {
                    assert(calls_so_far(*descriptor, start, registers, rejected, next@)
                        =~= calls.push(call));
                    pending = next;
                },
                RegistrationStep::Complete(regions) => {
                    return (at, Ok(regions));
                },
            },
            Err(source) => match pending.refused(source) {
                Ok(retry) => {
                    proof {
                        rejected = now.index;
                        assert(calls_so_far(*descriptor, start, registers, rejected, retry@)
                            =~= calls.push(call));
                    }
                    pending = retry;
                },
                Err(failure) => {
                    return (at, Err(failure));
                },
            },
        }
    }
}

/// Whether a registration that goes on as `registers` says comes from `start` to `now`; `rejected`
/// is where write protection is refused, if it is.
spec fn is_on_the_way<U>(
    start: RegistrationView,
    registers: Registers<U>,
    rejected: int,
    now: RegistrationView,
) -> bool {
    &&& now.regions == start.regions
    &&& now.user_mode_only == start.user_mode_only
    &&& if now.mode == start.mode {
        &&& start.index <= now.index
        &&& registers_between(registers, now.mode, start.index, now.index)
    } else {
        &&& start.mode == RegisterMode::MissingWriteProtect
        &&& now.mode == RegisterMode::Missing
        &&& start.index <= rejected < start.regions.len()
        &&& registers_between(registers, start.mode, start.index, rejected)
        &&& registers(start.mode, rejected) is Err
        &&& 0 <= now.index
        &&& registers_between(registers, now.mode, 0, now.index)
    }
}

/// The calls of a registration that has come so far.
spec fn calls_so_far<U, D>(
    descriptor: D,
    start: RegistrationView,
    registers: Registers<U>,
    rejected: int,
    now: RegistrationView,
) -> Seq<DescriptorCall<U, D>> {
    let regions = start.regions;
    let first = start.mode;
    if now.mode == first {
        pass_calls(descriptor, regions, first, registers, start.index, now.index)
    } else {
        pass_calls(descriptor, regions, first, registers, start.index, rejected + 1) + pass_calls(
            descriptor,
            regions,
            now.mode,
            registers,
            0,
            now.index,
        )
    }
}

/// A registration that goes on no further has made its calls, and comes to its end.
proof fn lemma_registration_has_ended<U, D>(
    descriptor: D,
    start: RegistrationView,
    registers: Registers<U>,
    rejected: int,
    now: RegistrationView,
)
    requires
        0 <= start.index < start.regions.len(),
        0 <= now.index < now.regions.len(),
        is_on_the_way(start, registers, rejected, now),
        registers(now.mode, now.index) is Ok ==> now.index + 1 == now.regions.len(),
        registers(now.mode, now.index) is Err ==> now.mode != RegisterMode::MissingWriteProtect,
    ensures
        registration_end(start, registers) == (match registers(now.mode, now.index) {
            Ok(()) => Ok::<bool, (int, U)>(now.mode == RegisterMode::MissingWriteProtect),
            Err(source) => Err((now.index, source)),
        }),
        registration_calls(descriptor, start, registers) == calls_so_far(
            descriptor,
            start,
            registers,
            rejected,
            now,
        ).push(register_call(descriptor, start.regions, now.mode, now.index, registers)),
{
    let again = RegistrationView { mode: RegisterMode::Missing, index: 0, ..start };
    if now.mode == start.mode {
        lemma_pass_has_ended(descriptor, start, registers, now.index);
    } else {
        let len = start.regions.len() as int;
        lemma_registration_pass(start, registers);
        assert(!registers_between(registers, start.mode, start.index, len));
        law_refused_region_ends_the_pass(descriptor, start, registers, rejected);
        lemma_pass_has_ended(descriptor, again, registers, now.index);
        let first = pass_calls(
            descriptor,
            start.regions,
            start.mode,
            registers,
            start.index,
            rejected + 1,
        );
        let second = pass_calls(descriptor, start.regions, now.mode, registers, 0, now.index);
        let last = register_call(descriptor, start.regions, now.mode, now.index, registers);
        assert(first + second.push(last) =~= (first + second).push(last));
    }
}

/// The last pass of a registration, which ends at `index`.
proof fn lemma_pass_has_ended<U, D>(
    descriptor: D,
    start: RegistrationView,
    registers: Registers<U>,
    index: int,
)
    requires
        0 <= start.index <= index < start.regions.len(),
        registers_between(registers, start.mode, start.index, index),
        registers(start.mode, index) is Ok ==> index + 1 == start.regions.len(),
        registers(start.mode, index) is Err ==> start.mode != RegisterMode::MissingWriteProtect,
    ensures
        registration_end(start, registers) == (match registers(start.mode, index) {
            Ok(()) => Ok::<bool, (int, U)>(start.mode == RegisterMode::MissingWriteProtect),
            Err(source) => Err((index, source)),
        }),
        registration_calls(descriptor, start, registers) == pass_calls(
            descriptor,
            start.regions,
            start.mode,
            registers,
            start.index,
            index,
        ).push(register_call(descriptor, start.regions, start.mode, index, registers)),
{
    let RegistrationView { regions, mode, .. } = start;
    let calls = pass_calls(descriptor, regions, mode, registers, start.index, index);
    let all = pass_calls(descriptor, regions, mode, registers, start.index, index + 1);
    assert(all =~= calls.push(register_call(descriptor, regions, mode, index, registers)));
    lemma_registration_pass(start, registers);
    if registers(mode, index) is Ok {
        assert(registers_between(registers, mode, start.index, regions.len() as int));
        law_accepted_regions_are_registered_once(descriptor, start, registers);
    } else {
        assert(!registers_between(registers, mode, start.index, regions.len() as int));
        law_refused_region_ends_the_pass(descriptor, start, registers, index);
        assert(all + Seq::empty() =~= all);
    }
}

/// Whether `send` gave this answer for a payload.
pub open spec fn sent_by<P, D, S, X: Fn(P, &S, &D, &[u8]) -> (P, isize, std::io::Error)>(
    send: X,
    from: P,
    stream: S,
    descriptor: D,
    payload: Seq<u8>,
    answer: (P, isize, std::io::Error),
) -> bool {
    exists|bytes: &[u8]|
        {
            &&& bytes@ == payload
            &&& #[trigger] call_ensures(send, (from, &stream, &descriptor, bytes), answer)
        }
}

/// Whether `start` gave this answer for a session.
pub open spec fn started_by<
    P,
    S,
    T: Fn(P, S, CooperationSession) -> (P, Result<(), std::io::Error>),
>(
    start: T,
    from: P,
    stream: S,
    view: SessionView,
    answer: (P, Result<(), std::io::Error>),
) -> bool {
    exists|session: CooperationSession|
        {
            &&& session@ == view
            &&& #[trigger] call_ensures(start, (from, stream, session), answer)
        }
}

/// The calls that the functions which deliver a handoff make.
pub open spec fn delivered_by<
    P,
    D,
    S,
    Z: Fn(P, &UffdHandoffMetadata) -> (P, Result<Vec<u8>, serde_json::Error>),
    K: Fn(P) -> (P, Result<S, std::io::Error>),
    X: Fn(P, &S, &D, &[u8]) -> (P, isize, std::io::Error),
    A: Fn(P, &S) -> (P, Result<usize, std::io::Error>, u8),
    T: Fn(P, S, CooperationSession) -> (P, Result<(), std::io::Error>),
>(serialize: Z, connect: K, send: X, read_ack: A, start: T) -> Made<P, DeliveryCall<D, S>> {
    |from: P, call: DeliveryCall<D, S>, to: P|
        match call {
            DeliveryCall::Serialize(metadata, answer) => call_ensures(
                serialize,
                (from, &metadata),
                (to, answer),
            ),
            DeliveryCall::Connect(answer) => call_ensures(connect, (from,), (to, answer)),
            DeliveryCall::Send(stream, descriptor, payload, returned, os_error) => sent_by(
                send,
                from,
                stream,
                descriptor,
                payload,
                (to, returned, os_error),
            ),
            DeliveryCall::ReadAck(stream, read, ack) => call_ensures(
                read_ack,
                (from, &stream),
                (to, read, ack),
            ),
            DeliveryCall::Start(stream, session, answer) => started_by(
                start,
                from,
                stream,
                session,
                (to, answer),
            ),
        }
}

/// Delivers a handoff whose regions are registered: describes it, sends the payload with the
/// descriptor, waits for the acknowledgement and starts the servicing of requests.
pub fn deliver_uffd_handoff<
    P,
    U,
    D,
    S,
    Z: Fn(P, &UffdHandoffMetadata) -> (P, Result<Vec<u8>, serde_json::Error>),
    K: Fn(P) -> (P, Result<S, std::io::Error>),
    X: Fn(P, &S, &D, &[u8]) -> (P, isize, std::io::Error),
    A: Fn(P, &S) -> (P, Result<usize, std::io::Error>, u8),
    T: Fn(P, S, CooperationSession) -> (P, Result<(), std::io::Error>),
>(
    platform: P,
    regions: RegisteredRegions,
    descriptor: &D,
    pid: u32,
    path: String,
    errnos: Errnos,
    serialize: Z,
    connect: K,
    send: X,
    read_ack: A,
    start: T,
) -> (done: (P, Result<UffdHandoffMetadata, UffdHandoffError<U>>))
    requires
        forall|at: P, metadata: &UffdHandoffMetadata| #[trigger]
            call_requires(serialize, (at, metadata)),
        forall|at: P| #[trigger] call_requires(connect, (at,)),
        forall|at: P, stream: &S, uffd: &D, payload: &[u8]| #[trigger]
            call_requires(send, (at, stream, uffd, payload)),
        forall|at: P, stream: &S| #[trigger] call_requires(read_ack, (at, stream)),
        forall|at: P, stream: S, session: CooperationSession| #[trigger]
            call_requires(start, (at, stream, session)),
    ensures
        exists|metadata: UffdHandoffMetadata, delivery: Delivery<S>|
            {
                let calls = #[trigger] delivery_calls(
                    *descriptor,
                    regions@.regions,
                    errnos,
                    metadata,
                    delivery,
                );
                &&& describes(
                    metadata,
                    regions@.regions,
                    pid,
                    regions@.user_mode_only,
                    regions@.write_protect,
                )
                &&& in_turn(
                    delivered_by(serialize, connect, send, read_ack, start),
                    platform,
                    calls,
                    done.0,
                )
                &&& done.1 == (match delivery_end::<U, S>(path, delivery) {
                    None => Ok::<UffdHandoffMetadata, UffdHandoffError<U>>(metadata),
                    Some(error) => Err(error),
                })
            },
{
    let ghost sources = regions@.regions;
    let ghost made = delivered_by(serialize, connect, send, read_ack, start);
    let ghost mut delivery: Delivery<S> = arbitrary();
    let ghost mut calls: Seq<DeliveryCall<D, S>> = Seq::empty();
    let described = regions.describe(pid);
    let ghost metadata = described@.metadata;
    let (at, document) = serialize(platform, described.metadata());
    proof {
        delivery = Delivery { document, ..delivery };
        let call = DeliveryCall::Serialize(metadata, document);
        assert(made(platform, call, at));
        lemma_one_call(made, platform, call, at);
        calls = seq![call];
    }
    let framed = match described.serialized(document) {
        Ok(framed) => framed,
        Err(failure) => {
            assert(calls =~= delivery_calls(*descriptor, sources, errnos, metadata, delivery));
            return (at, Err(failure));
        },
    };
    let ghost before = at;
    let (at, outcome) = connect(at);
    proof {
        delivery = Delivery { connects: outcome, ..delivery };
        let call = DeliveryCall::Connect(outcome);
        assert(made(before, call, at));
        lemma_one_more_call(made, platform, calls, before, call, at);
        calls = calls.push(call);
    }
    let (connected, stream) = match framed.connected(path, outcome) {
        Ok(connected) => connected,
        Err(failure) => {
            assert(calls =~= delivery_calls(*descriptor, sources, errnos, metadata, delivery));
            return (at, Err(failure));
        },
    };
    let ghost before = at;
    let payload = connected.payload();
    let (at, returned, os_error): (P, isize, std::io::Error) = send(
        at,
        &stream,
        descriptor,
        payload,
    );
    proof {
        delivery = Delivery { sent: returned, os_error, ..delivery };
        let call = DeliveryCall::Send(stream, *descriptor, payload@, returned, os_error);
        assert(sent_by(
            send,
            before,
            stream,
            *descriptor,
            payload@,
            (at, returned, os_error),
        ));
        assert(made(before, call, at));
        lemma_one_more_call(made, platform, calls, before, call, at);
        calls = calls.push(call);
    }
    let sent = match connected.sent(returned, os_error) {
        Ok(sent) => sent,
        Err(failure) => {
            assert(calls =~= delivery_calls(*descriptor, sources, errnos, metadata, delivery));
            return (at, Err(failure));
        },
    };
    let ghost before = at;
    let (at, read, ack): (P, Result<usize, std::io::Error>, u8) = read_ack(at, &stream);
    proof {
        delivery = Delivery { read, ack, ..delivery };
        let call = DeliveryCall::ReadAck(stream, read, ack);
        assert(made(before, call, at));
        lemma_one_more_call(made, platform, calls, before, call, at);
        calls = calls.push(call);
    }
    let acknowledged = match sent.acknowledged(read, ack) {
        Ok(acknowledged) => acknowledged,
        Err(failure) => {
            assert(calls =~= delivery_calls(*descriptor, sources, errnos, metadata, delivery));
            return (at, Err(failure));
        },
    };
    let ghost before = at;
    let session = acknowledged.session(errnos);
    let (at, started) = start(at, stream, session);
    proof {
        delivery = Delivery { starts: started, ..delivery };
        let call = DeliveryCall::Start(stream, session@, started);
        assert(started_by(start, before, stream, session@, (at, started)));
        assert(made(before, call, at));
        lemma_one_more_call(made, platform, calls, before, call, at);
        calls = calls.push(call);
        assert(calls =~= delivery_calls(*descriptor, sources, errnos, metadata, delivery));
    }
    (at, acknowledged.started(started))
}

/// The calls that the functions which create a descriptor and register regions with it make.
pub open spec fn called_by<
    P,
    U,
    D,
    C: Fn(P, DescriptorOptions) -> (P, Result<D, U>),
    O: Fn(P, i32) -> (P, Result<D, std::io::Error>),
    N: Fn(P, &D, UffdioApi) -> (P, Result<(), std::io::Error>),
    R: Fn(P, &D, RegisterRequest) -> (P, Result<(), U>),
>(create: C, open: O, negotiate: N, register: R) -> Made<P, DescriptorCall<U, D>> {
    |from: P, call: DescriptorCall<U, D>, to: P|
        {
            ||| created_by(create)(from, call, to)
            ||| opened_by::<P, U, D, O, N>(open, negotiate)(from, call, to)
            ||| registered_by(register)(from, call, to)
        }
}

/// Whether the metadata describe a handoff whose regions are registered.
pub open spec fn is_described<U, D, S>(
    regions: Seq<UffdHandoffRegionSource>,
    minor: bool,
    pid: u32,
    metadata: UffdHandoffMetadata,
    world: World<U, D, S>,
) -> bool {
    regions.len() > 0 ==> (created(regions, minor, world) matches Ok((_, user_mode_only)) ==> (
    registered(start_of(regions, user_mode_only, minor), world.registers) matches Ok(write_protect)
        ==> describes(metadata, regions, pid, user_mode_only, write_protect)))
}

/// Registers every region with one descriptor and hands the descriptor and the metadata to the
/// peer, with functions that make the system calls. Returns the metadata that were sent.
///
/// First all calls on descriptors are made, then all that deliver the handoff. Both lists end with
/// the first step that fails.
#[verifier::rlimit(30)]
pub fn perform_uffd_handoff<
    P,
    U,
    D,
    S,
    C: Fn(P, DescriptorOptions) -> (P, Result<D, U>),
    O: Fn(P, i32) -> (P, Result<D, std::io::Error>),
    N: Fn(P, &D, UffdioApi) -> (P, Result<(), std::io::Error>),
    R: Fn(P, &D, RegisterRequest) -> (P, Result<(), U>),
    Z: Fn(P, &UffdHandoffMetadata) -> (P, Result<Vec<u8>, serde_json::Error>),
    K: Fn(P) -> (P, Result<S, std::io::Error>),
    X: Fn(P, &S, &D, &[u8]) -> (P, isize, std::io::Error),
    A: Fn(P, &S) -> (P, Result<usize, std::io::Error>, u8),
    T: Fn(P, S, CooperationSession) -> (P, Result<(), std::io::Error>),
>(
    platform: P,
    regions: Vec<UffdHandoffRegionSource>,
    minor: bool,
    pid: u32,
    path: String,
    errnos: Errnos,
    create: C,
    open: O,
    negotiate: N,
    register: R,
    serialize: Z,
    connect: K,
    send: X,
    read_ack: A,
    start: T,
) -> (done: (P, Result<UffdHandoffMetadata, UffdHandoffError<U>>))
    requires
        forall|at: P, options: DescriptorOptions| #[trigger] call_requires(create, (at, options)),
        forall|at: P, flags: i32| #[trigger] call_requires(open, (at, flags)),
        forall|at: P, uffd: &D, api: UffdioApi| #[trigger]
            call_requires(negotiate, (at, uffd, api)),
        forall|at: P, uffd: &D, request: RegisterRequest| #[trigger]
            call_requires(register, (at, uffd, request)),
        forall|at: P, metadata: &UffdHandoffMetadata| #[trigger]
            call_requires(serialize, (at, metadata)),
        forall|at: P| #[trigger] call_requires(connect, (at,)),
        forall|at: P, stream: &S, uffd: &D, payload: &[u8]| #[trigger]
            call_requires(send, (at, stream, uffd, payload)),
        forall|at: P, stream: &S| #[trigger] call_requires(read_ack, (at, stream)),
        forall|at: P, stream: S, session: CooperationSession| #[trigger]
            call_requires(start, (at, stream, session)),
    ensures
        exists|metadata: UffdHandoffMetadata, world: World<U, D, S>, between: P|
            {
                &&& minor ==> may_close_on_exec(world.close_on_exec)
                &&& #[trigger] is_described(regions@, minor, pid, metadata, world)
                &&& #[trigger] in_turn(
                    called_by(create, open, negotiate, register),
                    platform,
                    descriptor_calls(regions@, minor, world),
                    between,
                )
                &&& in_turn(
                    delivered_by(serialize, connect, send, read_ack, start),
                    between,
                    handoff_delivery_calls(regions@, minor, errnos, metadata, world),
                    done.0,
                )
                &&& done.1 == (match handoff_end(regions@, minor, path, world) {
                    Ok(_) => Ok::<UffdHandoffMetadata, UffdHandoffError<U>>(metadata),
                    Err(error) => Err(error),
                })
            },
{
    let ghost sources = regions@;
    let ghost calls_made = called_by(create, open, negotiate, register);
    let ghost delivery_made = delivered_by(serialize, connect, send, read_ack, start);
    let ghost mut metadata: UffdHandoffMetadata = arbitrary();
    let ghost mut world: World<U, D, S> = arbitrary();
    let begun = match begin_uffd_handoff(regions, minor) {
        Ok(begun) => begun,
        Err(failure) => {
            proof {
                world = World { close_on_exec: 0x8_0000, ..world };
                lemma_no_call(calls_made, platform);
                lemma_no_call(delivery_made, platform);
                assert(is_described(sources, minor, pid, metadata, world));
                assert(descriptor_calls(sources, minor, world) == Seq::<
                    DescriptorCall<U, D>,
                >::empty());
            }
            return (platform, Err(failure));
        },
    };
    let ghost first = CreationView { regions: sources, user_mode_only: false };
    let ghost mut calls: Seq<DescriptorCall<U, D>> = Seq::empty();
    let (at, outcome) = match begun {
        Creation::Plain(creation) => {
            let (at, outcome) = create_uffd(platform, creation, &create);
            proof {
                let creates = choose|creates: Creates<D, U>|
                    {
                        let calls = #[trigger] creation_calls(first, creates);
                        &&& in_turn(created_by(create), platform, calls, at)
                        &&& created_as(first, creates, outcome)
                    };
                world = World { creates, ..world };
                calls = creation_calls(first, creates);
                lemma_made_by_more(created_by(create), calls_made, platform, calls, at);
            }
            (at, outcome)
        },
        Creation::Minor(creation) => {
            let ghost view = creation@;
            let (at, outcome) = create_uffd_minor(platform, creation, &open, &negotiate);
            proof {
                let made = opened_by::<P, U, D, O, N>(open, negotiate);
                let (opens, negotiates) = choose|
                    opens: Creates<D, std::io::Error>,
                    negotiates: Creates<(), std::io::Error>,
                |
                    {
                        let calls = #[trigger] minor_creation_calls(view, opens, negotiates);
                        let attempts = minor_attempts(opens, negotiates);
                        &&& in_turn(made, platform, calls, at)
                        &&& created_minor_as(first, attempts, outcome)
                    };
                world = World { close_on_exec: view.close_on_exec, opens, negotiates, ..world };
                calls = minor_creation_calls(view, opens, negotiates);
                lemma_made_by_more(made, calls_made, platform, calls, at);
            }
            (at, outcome)
        },
    };
    let (descriptor, registration) = match outcome {
        Ok(created) => created,
        Err(failure) => {
            proof {
                lemma_no_call(delivery_made, at);
                assert(calls == descriptor_calls(sources, minor, world));
                assert(is_described(sources, minor, pid, metadata, world));
            }
            return (at, Err(failure));
        },
    };
    let ghost begin = registration@;
    let ghost between = at;
    let (at, outcome) = register_regions(at, &descriptor, registration, &register);
    proof {
        let registers = choose|registers: Registers<U>|
            {
                let calls = #[trigger] registration_calls(descriptor, begin, registers);
                &&& in_turn(registered_by(register), between, calls, at)
                &&& registered_as(begin, registers, outcome)
            };
        world = World { registers, ..world };
        let more = registration_calls(descriptor, begin, registers);
        lemma_made_by_more(registered_by(register), calls_made, between, more, at);
        lemma_more_calls(calls_made, platform, calls, between, more, at);
        calls = calls + more;
        assert(calls == descriptor_calls(sources, minor, world));
    }
    let regions = match outcome {
        Ok(regions) => regions,
        Err(failure) => {
            proof {
                lemma_no_call(delivery_made, at);
                assert(is_described(sources, minor, pid, metadata, world));
            }
            return (at, Err(failure));
        },
    };
    let ghost all = regions@;
    let ghost between = at;
    let (at, delivered) = deliver_uffd_handoff(
        at,
        regions,
        &descriptor,
        pid,
        path,
        errnos,
        serialize,
        connect,
        send,
        read_ack,
        start,
    );
    proof {
        let (described, delivery) = choose|described: UffdHandoffMetadata, delivery: Delivery<S>|
            {
                let calls = #[trigger] delivery_calls(
                    descriptor,
                    all.regions,
                    errnos,
                    described,
                    delivery,
                );
                &&& describes(described, all.regions, pid, all.user_mode_only, all.write_protect)
                &&& in_turn(delivery_made, between, calls, at)
                &&& delivered == (match delivery_end::<U, S>(path, delivery) {
                    None => Ok::<UffdHandoffMetadata, UffdHandoffError<U>>(described),
                    Some(error) => Err(error),
                })
            };
        metadata = described;
        world = World { delivery, ..world };
        assert(calls == descriptor_calls(sources, minor, world));
        assert(is_described(sources, minor, pid, metadata, world));
    }
    (at, delivered)
}

} // verus!
