//! Whole handoffs, with a platform and a peer that are held in memory.

use std::io::{Error, ErrorKind};

use uffd_handoff::{
    begin_uffd_handoff, create_uffd, create_uffd_minor, perform_uffd_handoff, register_regions,
    CooperationSession, Creation, DescriptorOptions, Errnos, RegisterMode, RegisterRequest,
    UffdHandoffError, UffdHandoffMetadata, UffdHandoffRegionSource, UffdioApi, UFFD_HANDOFF_ACK,
};

/// The error of a descriptor that cannot be created or refuses a range.
type Refusal = &'static str;

/// What is asked of the platform and the peer, in its order.
#[derive(Debug, PartialEq)]
enum Call {
    Create(bool),
    Open(i32),
    Negotiate(u32, u64),
    Register(u32, usize, RegisterMode),
    Serialize(usize),
    Connect,
    Send(u32, Vec<u8>),
    ReadAck,
    Start,
}

/// What the platform and the peer answer.
struct Platform {
    /// Whether a descriptor can be had, in general and for user-mode faults alone.
    creates: [bool; 2],
    /// Whether the features of an opened descriptor can be enabled.
    negotiates: [bool; 2],
    /// Whether the region at an address can be registered.
    registers: fn(usize, RegisterMode) -> bool,
    serializes: bool,
    connects: bool,
    /// How many bytes of the payload are left unsent, or that sending fails.
    unsent: Result<isize, ErrorKind>,
    read: Result<usize, ErrorKind>,
    ack: u8,
    starts: bool,
    calls: Vec<Call>,
}

fn platform() -> Platform {
    Platform {
        creates: [true, true],
        negotiates: [true, true],
        registers: |_, _| true,
        serializes: true,
        connects: true,
        unsent: Ok(0),
        read: Ok(1),
        ack: UFFD_HANDOFF_ACK,
        starts: true,
        calls: Vec::new(),
    }
}

fn source(index: u64) -> UffdHandoffRegionSource {
    UffdHandoffRegionSource {
        guest_phys_addr: 0x10_0000 * index,
        len: 0x4000 + index,
        host_virt_addr: 0x7000 + 0x1000 * index as usize,
        file_offset: 0,
        backing_dev: 5,
        backing_ino: 9,
        shared: false,
    }
}

impl Platform {
    fn create(mut self, options: DescriptorOptions) -> (Self, Result<u32, Refusal>) {
        self.calls.push(Call::Create(options.user_mode_only));
        let answer = match (
            self.creates[usize::from(options.user_mode_only)],
            options.user_mode_only,
        ) {
            (true, false) => Ok(10),
            (true, true) => Ok(11),
            (false, false) => Err("not permitted"),
            (false, true) => Err("not supported"),
        };
        (self, answer)
    }

    fn open(mut self, flags: i32) -> (Self, Result<u32, Error>) {
        self.calls.push(Call::Open(flags));
        let user_mode_only = flags != libc::O_CLOEXEC;
        let answer = match (self.creates[usize::from(user_mode_only)], user_mode_only) {
            (true, false) => Ok(10),
            (true, true) => Ok(11),
            (false, false) => Err(Error::from(ErrorKind::PermissionDenied)),
            (false, true) => Err(Error::from(ErrorKind::Unsupported)),
        };
        (self, answer)
    }

    fn negotiate(mut self, descriptor: &u32, api: UffdioApi) -> (Self, Result<(), Error>) {
        self.calls.push(Call::Negotiate(*descriptor, api.features));
        let answer = if self.negotiates[usize::from(*descriptor == 11)] {
            Ok(())
        } else {
            Err(Error::from(ErrorKind::InvalidInput))
        };
        (self, answer)
    }

    fn register(
        mut self,
        descriptor: &u32,
        request: RegisterRequest,
    ) -> (Self, Result<(), Refusal>) {
        self.calls.push(Call::Register(
            *descriptor,
            request.host_virt_addr,
            request.mode,
        ));
        let answer = if (self.registers)(request.host_virt_addr, request.mode) {
            Ok(())
        } else {
            Err("refused")
        };
        (self, answer)
    }

    fn serialize(
        mut self,
        metadata: &UffdHandoffMetadata,
    ) -> (Self, Result<Vec<u8>, serde_json::Error>) {
        self.calls.push(Call::Serialize(metadata.regions.len()));
        let answer = if self.serializes {
            Ok(b"{}".to_vec())
        } else {
            Err(serde_json::from_str::<u8>("x").unwrap_err())
        };
        (self, answer)
    }

    fn connect(mut self) -> (Self, Result<&'static str, Error>) {
        self.calls.push(Call::Connect);
        let answer = if self.connects {
            Ok("the stream")
        } else {
            Err(Error::from(ErrorKind::NotFound))
        };
        (self, answer)
    }

    fn send(mut self, stream: &&str, descriptor: &u32, payload: &[u8]) -> (Self, isize, Error) {
        assert_eq!(*stream, "the stream");
        self.calls.push(Call::Send(*descriptor, payload.to_vec()));
        let (returned, os_error) = match self.unsent {
            Ok(unsent) => (payload.len() as isize - unsent, ErrorKind::Interrupted),
            Err(kind) => (-1, kind),
        };
        (self, returned, Error::from(os_error))
    }

    fn read_ack(mut self, stream: &&str) -> (Self, Result<usize, Error>, u8) {
        assert_eq!(*stream, "the stream");
        self.calls.push(Call::ReadAck);
        let read = self.read.map_err(Error::from);
        let ack = self.ack;
        (self, read, ack)
    }

    fn start(
        mut self,
        stream: &str,
        _session: CooperationSession,
    ) -> (Self, Result<(), Error>) {
        assert_eq!(stream, "the stream");
        self.calls.push(Call::Start);
        let answer = if self.starts {
            Ok(())
        } else {
            Err(Error::from(ErrorKind::WouldBlock))
        };
        (self, answer)
    }

    fn perform(
        self,
        regions: u64,
        minor: bool,
    ) -> (Vec<Call>, Result<UffdHandoffMetadata, Failure>) {
        self.perform_at("/run/uffd.sock", regions, minor)
    }

    /// Performs a handoff, and keeps the calls that were made.
    fn perform_at(
        self,
        path: &str,
        regions: u64,
        minor: bool,
    ) -> (Vec<Call>, Result<UffdHandoffMetadata, Failure>) {
        let (platform, performed) = perform_uffd_handoff(
            self,
            (0..regions).map(source).collect(),
            minor,
            42,
            path.to_string(),
            Errnos::host(),
            Platform::create,
            Platform::open,
            Platform::negotiate,
            Platform::register,
            Platform::serialize,
            Platform::connect,
            Platform::send,
            Platform::read_ack,
            Platform::start,
        );
        (platform.calls, performed)
    }
}

type Failure = UffdHandoffError<Refusal>;

/// What is asked for by a handoff of two regions that nothing refuses.
fn all_calls() -> Vec<Call> {
    vec![
        Call::Create(false),
        Call::Register(10, 0x7000, RegisterMode::MissingWriteProtect),
        Call::Register(10, 0x8000, RegisterMode::MissingWriteProtect),
        Call::Serialize(2),
        Call::Connect,
        Call::Send(10, vec![2, 0, 0, 0, b'{', b'}']),
        Call::ReadAck,
        Call::Start,
    ]
}

#[test]
fn handoff_rejects_empty_region_list() {
    for minor in [false, true] {
        let (calls, performed) = platform().perform_at("/nonexistent-socket", 0, minor);
        let err = performed.unwrap_err();
        assert!(matches!(err, UffdHandoffError::NoEligibleRegions));
        assert!(calls.is_empty());
    }
}

#[test]
fn handoff_fails_deterministically_when_socket_is_absent() {
    let mut world = platform();
    world.connects = false;
    let (_, performed) = world.perform_at("/nonexistent/uffd-handoff.sock", 1, false);
    let err = performed.unwrap_err();
    assert!(matches!(err, UffdHandoffError::SocketConnect { .. }));
    assert_eq!(
        err.message(),
        "failed to connect to uffd handoff socket /nonexistent/uffd-handoff.sock"
    );
}

#[test]
fn handoff_runs_every_step_once() {
    let (calls, performed) = platform().perform(2, false);
    let metadata = performed.unwrap();
    assert_eq!(calls, all_calls());
    assert_eq!(metadata.pid, 42);
    assert_eq!(metadata.user_mode_only, false);
    assert_eq!(metadata.registered_write_protect, true);
    assert_eq!(metadata.regions.len(), 2);
    assert_eq!(metadata.regions[1].host_virt_addr, 0x8000);
}

#[test]
fn handoff_reports_what_it_fell_back_to() {
    let mut world = platform();
    world.creates = [false, true];
    world.registers = |address, mode| {
        address != 0x8000 || mode != RegisterMode::MissingWriteProtect
    };
    let (calls, performed) = world.perform(3, false);
    let metadata = performed.unwrap();
    assert_eq!(metadata.user_mode_only, true);
    assert_eq!(metadata.registered_write_protect, false);
    assert_eq!(
        calls[..7],
        [
            Call::Create(false),
            Call::Create(true),
            Call::Register(11, 0x7000, RegisterMode::MissingWriteProtect),
            Call::Register(11, 0x8000, RegisterMode::MissingWriteProtect),
            Call::Register(11, 0x7000, RegisterMode::Missing),
            Call::Register(11, 0x8000, RegisterMode::Missing),
            Call::Register(11, 0x9000, RegisterMode::Missing),
        ]
    );
}

#[test]
fn minor_handoff_opens_and_negotiates() {
    let mut world = platform();
    world.negotiates = [false, true];
    let (calls, performed) = world.perform(1, true);
    let metadata = performed.unwrap();
    assert_eq!(metadata.user_mode_only, true);
    assert_eq!(metadata.registered_write_protect, false);
    assert_eq!(
        calls[..5],
        [
            Call::Open(libc::O_CLOEXEC),
            Call::Negotiate(10, 0x208),
            Call::Open(libc::O_CLOEXEC | 1),
            Call::Negotiate(11, 0x208),
            Call::Register(11, 0x7000, RegisterMode::MissingMinor),
        ]
    );
}

/// Performs a handoff of two regions that fails, and keeps the error and how many of the calls of
/// one that succeeds were made.
fn failure_of(change: fn(&mut Platform)) -> (Failure, usize) {
    let mut world = platform();
    change(&mut world);
    let (calls, performed) = world.perform(2, false);
    assert_eq!(calls[..], all_calls()[..calls.len()]);
    (performed.unwrap_err(), calls.len())
}

#[test]
fn failed_step_ends_the_handoff_with_its_error() {
    let (err, calls) = failure_of(|world| world.serializes = false);
    assert!(matches!(err, UffdHandoffError::Serialize(_)));
    assert_eq!(calls, 4);

    let (err, calls) = failure_of(|world| world.connects = false);
    match err {
        UffdHandoffError::SocketConnect { path, source } => {
            assert_eq!(path, "/run/uffd.sock");
            assert_eq!(source.kind(), ErrorKind::NotFound);
        }
        other => panic!("unexpected error: {other:?}"),
    }
    assert_eq!(calls, 5);

    let (err, calls) = failure_of(|world| world.unsent = Ok(4));
    match err {
        UffdHandoffError::SocketSend(error) => {
            assert_eq!(error.kind(), ErrorKind::WriteZero);
            assert_eq!(error.to_string(), "short sendmsg: sent 2 of 6 payload bytes");
        }
        other => panic!("unexpected error: {other:?}"),
    }
    assert_eq!(calls, 6);

    let (err, calls) = failure_of(|world| world.unsent = Err(ErrorKind::BrokenPipe));
    match err {
        UffdHandoffError::SocketSend(error) => assert_eq!(error.kind(), ErrorKind::BrokenPipe),
        other => panic!("unexpected error: {other:?}"),
    }
    assert_eq!(calls, 6);

    let (err, calls) = failure_of(|world| world.read = Err(ErrorKind::TimedOut));
    assert!(matches!(err, UffdHandoffError::AckRead(_)));
    assert_eq!(calls, 7);
    let (err, calls) = failure_of(|world| world.read = Ok(0));
    assert!(matches!(err, UffdHandoffError::AckEof));
    assert_eq!(calls, 7);
    let (err, calls) = failure_of(|world| world.ack = 2);
    assert!(matches!(err, UffdHandoffError::AckUnexpected(2)));
    assert_eq!(calls, 7);

    let (err, calls) = failure_of(|world| world.starts = false);
    assert!(matches!(err, UffdHandoffError::CooperationThreadSpawn(_)));
    assert_eq!(calls, 8);
}

#[test]
fn first_of_several_failures_is_that_of_the_handoff() {
    let failing = || Platform {
        creates: [false, false],
        registers: |_, _| false,
        serializes: false,
        connects: false,
        starts: false,
        ..platform()
    };
    let (calls, performed) = failing().perform(2, false);
    let err = performed.unwrap_err();
    assert!(matches!(err, UffdHandoffError::UffdCreate("not supported")));
    assert_eq!(calls, vec![Call::Create(false), Call::Create(true)]);

    let mut world = failing();
    world.creates = [false, true];
    let (calls, performed) = world.perform(2, false);
    match performed.unwrap_err() {
        UffdHandoffError::UffdRegister {
            host_virt_addr,
            len,
            source,
        } => {
            assert_eq!(host_virt_addr, 0x7000);
            assert_eq!(len, 0x4000);
            assert_eq!(source, "refused");
        }
        other => panic!("unexpected error: {other:?}"),
    }
    assert_eq!(
        calls,
        vec![
            Call::Create(false),
            Call::Create(true),
            Call::Register(11, 0x7000, RegisterMode::MissingWriteProtect),
            Call::Register(11, 0x7000, RegisterMode::Missing),
        ]
    );

    let mut world = failing();
    world.creates = [true, true];
    world.registers = |_, _| true;
    let (_, performed) = world.perform(2, false);
    let err = performed.unwrap_err();
    assert!(matches!(err, UffdHandoffError::Serialize(_)));

    let mut world = failing();
    world.creates = [true, true];
    world.registers = |_, _| true;
    world.serializes = true;
    let (_, performed) = world.perform(2, false);
    let err = performed.unwrap_err();
    assert!(matches!(err, UffdHandoffError::SocketConnect { .. }));
}

#[test]
fn descriptor_is_created_with_one_retry() {
    let created = |creates| {
        let mut world = platform();
        world.creates = creates;
        let Ok(Creation::Plain(creation)) =
            begin_uffd_handoff::<Refusal>(vec![source(0)], false)
        else {
            panic!("a plain descriptor is to be created");
        };
        let (world, created) = create_uffd(world, creation, &Platform::create);
        (world.calls, created.map(|(descriptor, _)| descriptor))
    };
    let (calls, created_first) = created([true, false]);
    assert!(matches!(created_first, Ok(10)));
    assert_eq!(calls, vec![Call::Create(false)]);
    let (calls, created_second) = created([false, true]);
    assert!(matches!(created_second, Ok(11)));
    assert_eq!(calls, vec![Call::Create(false), Call::Create(true)]);
    let (calls, created_none) = created([false, false]);
    assert!(matches!(
        created_none,
        Err(UffdHandoffError::UffdCreate("not supported"))
    ));
    assert_eq!(calls, vec![Call::Create(false), Call::Create(true)]);
}

#[test]
fn minor_descriptor_fails_with_the_error_of_the_last_attempt() {
    let kind_of = |creates, negotiates| {
        let mut world = platform();
        world.creates = creates;
        world.negotiates = negotiates;
        let Ok(Creation::Minor(creation)) = begin_uffd_handoff::<Refusal>(vec![source(0)], true)
        else {
            panic!("a descriptor with minor faults is to be created");
        };
        let (_, created) = create_uffd_minor::<_, Refusal, _, _, _>(
            world,
            creation,
            &Platform::open,
            &Platform::negotiate,
        );
        match created {
            Err(UffdHandoffError::UffdMinorCreate(error)) => error.kind(),
            other => panic!("unexpected outcome: {other:?}"),
        }
    };
    assert_eq!(kind_of([false, false], [true, true]), ErrorKind::Unsupported);
    assert_eq!(kind_of([true, false], [false, true]), ErrorKind::Unsupported);
    assert_eq!(kind_of([false, true], [true, false]), ErrorKind::InvalidInput);
    assert_eq!(kind_of([true, true], [false, false]), ErrorKind::InvalidInput);
}

#[test]
fn registration_names_the_first_region_that_is_refused_for_good() {
    let mut world = platform();
    world.registers = |address, mode| match mode {
        RegisterMode::MissingWriteProtect => address == 0x7000,
        _ => address != 0x9000,
    };
    let regions = (0..3).map(source).collect();
    let Ok(Creation::Plain(creation)) = begin_uffd_handoff::<Refusal>(regions, false) else {
        panic!("a plain descriptor is to be created");
    };
    let (world, registered) =
        register_regions(world, &3_u32, creation.created(), &Platform::register);
    match registered {
        Err(UffdHandoffError::UffdRegister { host_virt_addr, .. }) => {
            assert_eq!(host_virt_addr, 0x9000);
        }
        other => panic!("unexpected outcome: {other:?}"),
    }
    assert_eq!(
        world.calls,
        vec![
            Call::Register(3, 0x7000, RegisterMode::MissingWriteProtect),
            Call::Register(3, 0x8000, RegisterMode::MissingWriteProtect),
            Call::Register(3, 0x7000, RegisterMode::Missing),
            Call::Register(3, 0x8000, RegisterMode::Missing),
            Call::Register(3, 0x9000, RegisterMode::Missing),
        ]
    );
}

#[test]
fn refused_minor_registration_ends_with_that_region() {
    let mut world = platform();
    world.registers = |address, _| address != 0x8000;
    let (calls, performed) = world.perform(3, true);
    match performed.unwrap_err() {
        UffdHandoffError::UffdRegister {
            host_virt_addr,
            len,
            ..
        } => {
            assert_eq!(host_virt_addr, 0x8000);
            assert_eq!(len, 0x4001);
        }
        other => panic!("unexpected error: {other:?}"),
    }
    assert_eq!(
        calls,
        vec![
            Call::Open(libc::O_CLOEXEC),
            Call::Negotiate(10, 0x208),
            Call::Register(10, 0x7000, RegisterMode::MissingMinor),
            Call::Register(10, 0x8000, RegisterMode::MissingMinor),
        ]
    );
}

#[test]
fn only_host_ranges_decide() {
    let regions = |guest_phys_addr, shared| {
        vec![UffdHandoffRegionSource {
            guest_phys_addr,
            file_offset: guest_phys_addr,
            backing_dev: guest_phys_addr,
            backing_ino: guest_phys_addr,
            shared,
            ..source(0)
        }]
    };
    let calls_of = |regions| {
        let Ok(Creation::Plain(creation)) = begin_uffd_handoff::<Refusal>(regions, false) else {
            panic!("a plain descriptor is to be created");
        };
        let (world, registered) =
            register_regions(platform(), &3_u32, creation.created(), &Platform::register);
        assert!(registered.is_ok());
        world.calls
    };
    assert_eq!(calls_of(regions(0, false)), calls_of(regions(0x40_0000, true)));
}
