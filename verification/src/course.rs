//! What holds of whole handoffs, whatever the platform and the peer answer on the way.

use vstd::prelude::*;

use crate::conversation::law_dropped_page_lies_in_a_private_region;
use crate::creation::{after_refusal, CreationView};
use crate::errno::Errnos;
use crate::error::UffdHandoffError;
use crate::evict::{covers, page_decision, PageDecision, COOP_PAGE_SIZE};
use crate::handoff::{is_acknowledgement, send_error, sent_whole, session_of};
use crate::metadata::{
    cooperation_region, describes, payload_of, UffdHandoffMetadata, UffdHandoffRegionSource,
};
use crate::registration::{after_region_refused, start_of, RegisterMode, RegistrationView};

verus! {

/// What an attempt to have a descriptor comes to, for user-mode faults alone or not.
pub type Creates<D, E> = spec_fn(bool) -> Result<D, E>;

/// What registering the region at an index for the faults of a mode comes to.
pub type Registers<U> = spec_fn(RegisterMode, int) -> Result<(), U>;

/// What the attempts to create a descriptor end with: the descriptor, and whether it is for
/// user-mode faults alone; or the error of the last attempt.
pub open spec fn creation_end<D, E>(creation: CreationView, creates: Creates<D, E>) -> Result<
    (D, bool),
    E,
>
    decreases !creation.user_mode_only as int,
{
    match creates(creation.user_mode_only) {
        Ok(descriptor) => Ok((descriptor, creation.user_mode_only)),
        Err(error) => match after_refusal(creation) {
            Some(next) => creation_end(next, creates),
            None => Err(error),
        },
    }
}

/// The attempts to have a descriptor with minor faults: its file is opened, and then its features
/// are enabled.
pub open spec fn minor_attempts<D>(
    opens: Creates<D, std::io::Error>,
    negotiates: Creates<(), std::io::Error>,
) -> Creates<D, std::io::Error> {
    |user_mode_only: bool|
        match opens(user_mode_only) {
            Ok(descriptor) => match negotiates(user_mode_only) {
                Ok(()) => Ok(descriptor),
                Err(error) => Err(error),
            },
            Err(error) => Err(error),
        }
}

/// What the registration of the regions ends with: whether they are registered for write
/// protection, or the index of a region that was refused for good, and the error.
pub open spec fn registration_end<U>(
    registration: RegistrationView,
    registers: Registers<U>,
) -> Result<bool, (int, U)>
    decreases
            (registration.mode == RegisterMode::MissingWriteProtect) as int,
            registration.regions.len() - registration.index,
{
    if !(0 <= registration.index < registration.regions.len()) {
        Ok(registration.mode == RegisterMode::MissingWriteProtect)
    } else {
        match registers(registration.mode, registration.index) {
            Ok(()) => if registration.index + 1 < registration.regions.len() {
                registration_end(
                    RegistrationView { index: registration.index + 1, ..registration },
                    registers,
                )
            } else {
                Ok(registration.mode == RegisterMode::MissingWriteProtect)
            },
            Err(error) => match after_region_refused(registration) {
                Some(next) => registration_end(next, registers),
                None => Err((registration.index, error)),
            },
        }
    }
}

/// Whether the regions from one index up to another can be registered for the faults of `mode`.
pub open spec fn registers_between<U>(
    registers: Registers<U>,
    mode: RegisterMode,
    from: int,
    to: int,
) -> bool {
    forall|i: int| from <= i < to ==> (#[trigger] registers(mode, i)) is Ok
}

/// Whether every region can be registered for the faults of `mode`.
pub open spec fn all_register<U>(
    regions: Seq<UffdHandoffRegionSource>,
    mode: RegisterMode,
    registers: Registers<U>,
) -> bool {
    registers_between(registers, mode, 0, regions.len() as int)
}

/// Whether the region at `index` is the first that cannot be registered for the faults of `mode`.
pub open spec fn first_refused<U>(
    regions: Seq<UffdHandoffRegionSource>,
    mode: RegisterMode,
    index: int,
    registers: Registers<U>,
) -> bool {
    &&& 0 <= index < regions.len()
    &&& registers(mode, index) is Err
    &&& registers_between(registers, mode, 0, index)
}

/// A descriptor that observes kernel-mode faults is used where one can be had, one for user-mode
/// faults alone where only that can be had, and the report says which. Without either, the error
/// is that of the last attempt.
pub proof fn law_user_mode_only_is_truthful<D, E>(
    regions: Seq<UffdHandoffRegionSource>,
    creates: Creates<D, E>,
)
    ensures
        creation_end(CreationView { regions, user_mode_only: false }, creates) == (match creates(
            false,
        ) {
            Ok(descriptor) => Ok::<(D, bool), E>((descriptor, false)),
            Err(_) => match creates(true) {
                Ok(descriptor) => Ok((descriptor, true)),
                Err(error) => Err(error),
            },
        }),
{
    reveal_with_fuel(creation_end, 2);
}

/// Write protection is reported exactly if every region is registered for it. Where one is not,
/// every region is registered for missing-page faults alone, and where one cannot be, the handoff
/// fails with the first such region and its error. With minor faults, every region is registered
/// for them.
pub proof fn law_registration_is_truthful<U>(
    regions: Seq<UffdHandoffRegionSource>,
    user_mode_only: bool,
    registers: Registers<U>,
)
    requires
        regions.len() > 0,
    ensures
        ({
            let plain = registration_end(start_of(regions, user_mode_only, false), registers);
            let minor = registration_end(start_of(regions, user_mode_only, true), registers);
            let protect = all_register(regions, RegisterMode::MissingWriteProtect, registers);
            let missing = all_register(regions, RegisterMode::Missing, registers);
            &&& plain == Ok::<bool, (int, U)>(true) <==> protect
            &&& plain == Ok::<bool, (int, U)>(false) <==> !protect && missing
            &&& plain matches Err((index, error)) ==> {
                &&& first_refused(regions, RegisterMode::Missing, index, registers)
                &&& registers(RegisterMode::Missing, index) == Err::<(), U>(error)
            }
            &&& minor == Ok::<bool, (int, U)>(false) <==> all_register(
                regions,
                RegisterMode::MissingMinor,
                registers,
            )
            &&& minor != Ok::<bool, (int, U)>(true)
            &&& minor matches Err((index, error)) ==> {
                &&& first_refused(regions, RegisterMode::MissingMinor, index, registers)
                &&& registers(RegisterMode::MissingMinor, index) == Err::<(), U>(error)
            }
        }),
{
    lemma_registration_pass(start_of(regions, user_mode_only, false), registers);
    lemma_registration_pass(start_of(regions, user_mode_only, true), registers);
    lemma_registration_pass(
        RegistrationView {
            regions,
            user_mode_only,
            mode: RegisterMode::Missing,
            index: 0,
        },
        registers,
    );
}

/// How a pass over the regions ends, from one of them on.
pub(crate) proof fn lemma_registration_pass<U>(
    registration: RegistrationView,
    registers: Registers<U>,
)
    requires
        0 <= registration.index < registration.regions.len(),
    ensures
        ({
            let mode = registration.mode;
            let from = registration.index;
            let to = registration.regions.len() as int;
            let end = registration_end(registration, registers);
            if registers_between(registers, mode, from, to) {
                end == Ok::<bool, (int, U)>(mode == RegisterMode::MissingWriteProtect)
            } else if mode == RegisterMode::MissingWriteProtect {
                end == registration_end(
                    RegistrationView { mode: RegisterMode::Missing, index: 0, ..registration },
                    registers,
                )
            } else {
                &&& end matches Err((index, error))
                &&& from <= index < to
                &&& registers(mode, index) == Err::<(), U>(error)
                &&& registers_between(registers, mode, from, index)
            }
        }),
    decreases registration.regions.len() - registration.index,
{
    if registers(registration.mode, registration.index) is Ok && registration.index + 1
        < registration.regions.len() {
        lemma_registration_pass(
            RegistrationView { index: registration.index + 1, ..registration },
            registers,
        );
    }
}

/// What is answered once every region is registered. `S` is the type of the connection to the peer.
pub ghost struct Delivery<S> {
    /// Serializing the metadata.
    pub document: Result<Vec<u8>, serde_json::Error>,
    pub connects: Result<S, std::io::Error>,
    /// What `sendmsg(2)` returns.
    pub sent: isize,
    /// The error that the platform holds then.
    pub os_error: std::io::Error,
    /// How many bytes are read for the acknowledgement.
    pub read: Result<usize, std::io::Error>,
    pub ack: u8,
    /// Starting the thread that serves the peer's requests.
    pub starts: Result<(), std::io::Error>,
}

/// What the platform and the peer answer in the course of a handoff. `D` is the type of the
/// descriptor, and `U` that of its errors.
pub ghost struct World<U, D, S> {
    /// Creating a descriptor.
    pub creates: Creates<D, U>,
    /// The flag that closes a descriptor on `exec`.
    pub close_on_exec: i32,
    /// Opening a descriptor that is to have minor faults.
    pub opens: Creates<D, std::io::Error>,
    /// Enabling the features of one that was opened.
    pub negotiates: Creates<(), std::io::Error>,
    pub registers: Registers<U>,
    pub delivery: Delivery<S>,
}

/// What the creation of the descriptor comes to, in a handoff.
pub open spec fn created<U, D, S>(
    regions: Seq<UffdHandoffRegionSource>,
    minor: bool,
    world: World<U, D, S>,
) -> Result<(D, bool), UffdHandoffError<U>> {
    let start = CreationView { regions, user_mode_only: false };
    if minor {
        match creation_end(start, minor_attempts(world.opens, world.negotiates)) {
            Ok(created) => Ok(created),
            Err(error) => Err(UffdHandoffError::UffdMinorCreate(error)),
        }
    } else {
        match creation_end(start, world.creates) {
            Ok(created) => Ok(created),
            Err(error) => Err(UffdHandoffError::UffdCreate(error)),
        }
    }
}

/// The error of a region that was refused for good.
pub open spec fn refused_region<U>(
    regions: Seq<UffdHandoffRegionSource>,
    index: int,
    source: U,
) -> UffdHandoffError<U> {
    UffdHandoffError::UffdRegister {
        host_virt_addr: regions[index].host_virt_addr,
        len: regions[index].len,
        source,
    }
}

/// What the registration comes to, in a handoff.
pub open spec fn registered<U>(
    registration: RegistrationView,
    registers: Registers<U>,
) -> Result<bool, UffdHandoffError<U>> {
    match registration_end(registration, registers) {
        Ok(write_protect) => Ok(write_protect),
        Err((index, source)) => Err(refused_region(registration.regions, index, source)),
    }
}

/// The error of the acknowledgement, if it is none.
pub open spec fn ack_error<U>(read: Result<usize, std::io::Error>, ack: u8) -> Option<
    UffdHandoffError<U>,
> {
    match read {
        Err(error) => Some(UffdHandoffError::AckRead(error)),
        Ok(count) => if count == 0 {
            Some(UffdHandoffError::AckEof)
        } else if !is_acknowledgement(count, ack) {
            Some(UffdHandoffError::AckUnexpected(ack))
        } else {
            None
        },
    }
}

/// What becomes of a handoff whose regions are registered: nothing, or the error.
pub open spec fn delivery_end<U, S>(path: String, delivery: Delivery<S>) -> Option<
    UffdHandoffError<U>,
> {
    match delivery.document {
        Err(error) => Some(UffdHandoffError::Serialize(error)),
        Ok(document) => match delivery.connects {
            Err(source) => Some(UffdHandoffError::SocketConnect { path, source }),
            Ok(_) => match send_error(
                delivery.sent,
                delivery.os_error,
                payload_of(document@).len(),
            ) {
                Some(error) => Some(UffdHandoffError::SocketSend(error)),
                None => match ack_error(delivery.read, delivery.ack) {
                    Some(error) => Some(error),
                    None => match delivery.starts {
                        Err(error) => Some(UffdHandoffError::CooperationThreadSpawn(error)),
                        Ok(()) => None,
                    },
                },
            },
        },
    }
}

/// What a handoff ends with: the capabilities that the metadata report, or the error.
pub open spec fn handoff_end<U, D, S>(
    regions: Seq<UffdHandoffRegionSource>,
    minor: bool,
    path: String,
    world: World<U, D, S>,
) -> Result<(bool, bool), UffdHandoffError<U>> {
    if regions.len() == 0 {
        Err(UffdHandoffError::NoEligibleRegions)
    } else {
        match created(regions, minor, world) {
            Err(error) => Err(error),
            Ok((_, user_mode_only)) => match registered(
                start_of(regions, user_mode_only, minor),
                world.registers,
            ) {
                Err(error) => Err(error),
                Ok(write_protect) => match delivery_end(path, world.delivery) {
                    Some(error) => Err(error),
                    None => Ok((user_mode_only, write_protect)),
                },
            },
        }
    }
}

/// A handoff succeeds exactly if nothing on its way fails: there are regions, a descriptor is
/// created, every region is registered with it, the metadata are serialized and sent whole, the
/// peer acknowledges them, and the thread that serves its requests starts. Guest memory is never
/// left unregistered by a handoff that succeeds, and what it reports is the truth.
pub proof fn law_handoff_never_degrades_silently<U, D, S>(
    regions: Seq<UffdHandoffRegionSource>,
    minor: bool,
    path: String,
    world: World<U, D, S>,
)
    ensures
        ({
            let attempt = |user_mode_only: bool|
                if minor {
                    (world.opens)(user_mode_only) is Ok && (world.negotiates)(user_mode_only) is Ok
                } else {
                    (world.creates)(user_mode_only) is Ok
                };
            let mode = |m: RegisterMode| all_register(regions, m, world.registers);
            let protect = !minor && mode(RegisterMode::MissingWriteProtect);
            let registered = if minor {
                mode(RegisterMode::MissingMinor)
            } else {
                protect || mode(RegisterMode::Missing)
            };
            let end = handoff_end(regions, minor, path, world);
            &&& end is Ok <==> {
                &&& regions.len() > 0
                &&& attempt(false) || attempt(true)
                &&& registered
                &&& world.delivery.document matches Ok(document) && sent_whole(
                    world.delivery.sent,
                    payload_of(document@),
                )
                &&& world.delivery.connects is Ok
                &&& world.delivery.read matches Ok(count) && count > 0
                &&& world.delivery.ack == 0x01
                &&& world.delivery.starts is Ok
            }
            &&& end matches Ok((user_mode_only, write_protect)) ==> {
                &&& user_mode_only == !attempt(false)
                &&& write_protect == protect
            }
        }),
{
    if regions.len() > 0 {
        law_user_mode_only_is_truthful(regions, world.creates);
        law_user_mode_only_is_truthful(regions, minor_attempts(world.opens, world.negotiates));
        law_registration_is_truthful(regions, false, world.registers);
        law_registration_is_truthful(regions, true, world.registers);
    }
}

/// The failure of the creation of a descriptor, if both attempts fail: that of the second.
pub open spec fn creation_failure<U, D, S>(minor: bool, world: World<U, D, S>) -> Option<
    UffdHandoffError<U>,
> {
    if minor {
        let attempts = minor_attempts(world.opens, world.negotiates);
        match (attempts(false), attempts(true)) {
            (Err(_), Err(error)) => Some(UffdHandoffError::UffdMinorCreate(error)),
            _ => None,
        }
    } else {
        match ((world.creates)(false), (world.creates)(true)) {
            (Err(_), Err(error)) => Some(UffdHandoffError::UffdCreate(error)),
            _ => None,
        }
    }
}

/// The failure of the registration, if the regions cannot be registered in any way: that of the
/// first that is refused in the last.
pub open spec fn registration_failure<U>(
    regions: Seq<UffdHandoffRegionSource>,
    minor: bool,
    registers: Registers<U>,
) -> Option<UffdHandoffError<U>> {
    let last = if minor {
        RegisterMode::MissingMinor
    } else {
        RegisterMode::Missing
    };
    let protect = !minor && all_register(regions, RegisterMode::MissingWriteProtect, registers);
    if protect || all_register(regions, last, registers) {
        None
    } else {
        let index = choose|index: int| first_refused(regions, last, index, registers);
        Some(refused_region(regions, index, registers(last, index)->Err_0))
    }
}

/// The failures of the steps of a handoff, in their order, each with its own error, whatever comes
/// of the others: no regions, the descriptor, the registration, the document, the connection, the
/// sending, the acknowledgement, the thread.
pub open spec fn step_failures<U, D, S>(
    regions: Seq<UffdHandoffRegionSource>,
    minor: bool,
    path: String,
    world: World<U, D, S>,
) -> Seq<Option<UffdHandoffError<U>>> {
    seq![
        if regions.len() == 0 {
            Some(UffdHandoffError::NoEligibleRegions)
        } else {
            None
        },
        creation_failure(minor, world),
        registration_failure(regions, minor, world.registers),
        match world.delivery.document {
            Ok(_) => None,
            Err(error) => Some(UffdHandoffError::Serialize(error)),
        },
        match world.delivery.connects {
            Ok(_) => None,
            Err(source) => Some(UffdHandoffError::SocketConnect { path, source }),
        },
        match send_error(
            world.delivery.sent,
            world.delivery.os_error,
            payload_of(world.delivery.document->Ok_0@).len(),
        ) {
            None => None,
            Some(error) => Some(UffdHandoffError::SocketSend(error)),
        },
        ack_error(world.delivery.read, world.delivery.ack),
        match world.delivery.starts {
            Ok(()) => None,
            Err(error) => Some(UffdHandoffError::CooperationThreadSpawn(error)),
        },
    ]
}

/// A handoff fails with the error of the first of its steps that fails, and succeeds if none does.
pub proof fn law_handoff_fails_with_its_first_failing_step<U, D, S>(
    regions: Seq<UffdHandoffRegionSource>,
    minor: bool,
    path: String,
    world: World<U, D, S>,
)
    ensures
        ({
            let failures = step_failures(regions, minor, path, world);
            match handoff_end(regions, minor, path, world) {
                Ok(_) => forall|i: int|
                    0 <= i < failures.len() ==> (#[trigger] failures[i]) is None,
                Err(error) => exists|step: int|
                    {
                        &&& 0 <= step < failures.len()
                        &&& #[trigger] failures[step] == Some(error)
                        &&& forall|i: int| 0 <= i < step ==> (#[trigger] failures[i]) is None
                    },
            }
        }),
{
    let failures = step_failures(regions, minor, path, world);
    if regions.len() == 0 {
        assert(failures[0] == Some(UffdHandoffError::<U>::NoEligibleRegions));
    } else {
        law_user_mode_only_is_truthful(regions, world.creates);
        law_user_mode_only_is_truthful(regions, minor_attempts(world.opens, world.negotiates));
        law_registration_is_truthful(regions, false, world.registers);
        law_registration_is_truthful(regions, true, world.registers);
        match created(regions, minor, world) {
            Err(error) => {
                assert(failures[1] == Some(error));
            },
            Ok((_, user_mode_only)) => {
                law_registration_is_truthful(regions, user_mode_only, world.registers);
                assert(failures[1] is None);
                let registration = start_of(regions, user_mode_only, minor);
                match registration_end(registration, world.registers) {
                    Err((index, source)) => {
                        let last = if minor {
                            RegisterMode::MissingMinor
                        } else {
                            RegisterMode::Missing
                        };
                        let chosen = choose|i: int|
                            first_refused(regions, last, i, world.registers);
                        assert(first_refused(regions, last, index, world.registers));
                        assert(first_refused(regions, last, chosen, world.registers));
                        assert(chosen == index);
                        assert(failures[2] == Some(refused_region(regions, index, source)));
                    },
                    Ok(_) => {
                        assert(failures[2] is None);
                        if let Some(error) = delivery_end::<U, S>(
                            path,
                            world.delivery,
                        ) {
                            assert(failures[3] == Some(error) || failures[4] == Some(error)
                                || failures[5] == Some(error) || failures[6] == Some(error)
                                || failures[7] == Some(error));
                        }
                    },
                }
            },
        }
    }
}

/// A page that is dropped at the peer's request is a page of a region that was handed off, and
/// that the metadata report as private.
pub proof fn law_only_private_handed_off_pages_are_dropped(
    errnos: Errnos,
    regions: Seq<UffdHandoffRegionSource>,
    metadata: UffdHandoffMetadata,
    pid: u32,
    user_mode_only: bool,
    write_protect: bool,
    pfn: u64,
    host_va: u64,
)
    requires
        describes(metadata, regions, pid, user_mode_only, write_protect),
        page_decision(errnos, session_of(regions, errnos).regions, pfn) == PageDecision::Advise(
            host_va,
        ),
    ensures
        exists|i: int|
            {
                &&& 0 <= i < metadata.regions@.len()
                &&& !(#[trigger] metadata.regions@[i]).shared
                &&& metadata.regions@[i].host_virt_addr <= host_va
                &&& host_va + COOP_PAGE_SIZE <= metadata.regions@[i].host_virt_addr
                    + metadata.regions@[i].len
                &&& host_va - metadata.regions@[i].host_virt_addr == pfn * COOP_PAGE_SIZE
                    - metadata.regions@[i].guest_phys_addr
            },
{
    let maps = session_of(regions, errnos).regions;
    law_dropped_page_lies_in_a_private_region(errnos, maps, pfn, host_va);
    let i = choose|i: int|
        {
            &&& 0 <= i < maps.len()
            &&& covers(#[trigger] maps[i], pfn)
            &&& !maps[i].shared
            &&& maps[i].host_virt_addr <= host_va
            &&& host_va + COOP_PAGE_SIZE <= maps[i].host_virt_addr + maps[i].len
            &&& host_va - maps[i].host_virt_addr == pfn * COOP_PAGE_SIZE - maps[i].guest_phys_addr
        };
    assert(maps[i] == cooperation_region(regions[i]));
    assert(!metadata.regions@[i].shared);
}

} // verus!
