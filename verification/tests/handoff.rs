//! Handoffs, step by step, with the answers of the platform and the peer given.

use std::io::{Error, ErrorKind};

use uffd_handoff::{
    begin_uffd_handoff, cooperation_regions, describe_handoff, frame_document, minor_open_flags,
    send_outcome,
    CooperationRegion, Creation, DescriptorOptions, Errnos, EvictStep, FramedHandoff,
    HeaderOutcome, RegisterMode, RegisteredRegions, Registration, RegistrationStep,
    SendOutcome, SentHandoff, UffdHandoffError, UffdHandoffMetadata, UffdHandoffRegion,
    UffdHandoffRegionSource, UffdioApi, UFFDIO_API_REQUEST, UFFD_HANDOFF_ACK,
    UFFD_HANDOFF_PROTOCOL, UFFD_HANDOFF_VERSION,
};

/// The error of a descriptor that cannot be created or refuses a range.
type Refusal = &'static str;

type HandoffError = UffdHandoffError<Refusal>;

fn source(index: u64) -> UffdHandoffRegionSource {
    UffdHandoffRegionSource {
        guest_phys_addr: 0x10_0000 * index,
        len: 0x4000 + index,
        host_virt_addr: 0x7f00_0000_0000 + 0x100_0000 * index as usize,
        file_offset: 0x2000 * index,
        backing_dev: 5 + index,
        backing_ino: 9 + index,
        shared: index == 1,
    }
}

fn sources(count: u64) -> Vec<UffdHandoffRegionSource> {
    (0..count).map(source).collect()
}

fn begin(regions: Vec<UffdHandoffRegionSource>) -> Registration {
    match begin_uffd_handoff::<Refusal>(regions, false) {
        Ok(Creation::Plain(creation)) => creation.created(),
        other => panic!("unexpected beginning: {other:?}"),
    }
}

/// Registers all regions, with the answers of `accepts`, and keeps what was asked for.
fn register(
    mut registration: Registration,
    asked: &mut Vec<(usize, u64, RegisterMode)>,
    accepts: &dyn Fn(usize, RegisterMode) -> bool,
) -> Result<RegisteredRegions, HandoffError> {
    loop {
        let request = registration.request();
        asked.push((request.host_virt_addr, request.len, request.mode));
        if accepts(request.host_virt_addr, request.mode) {
            match registration.registered() {
                RegistrationStep::Next(next) => registration = next,
                RegistrationStep::Complete(registered) => return Ok(registered),
            }
        } else {
            registration = registration.refused("refused")?;
        }
    }
}

fn asks(indices: &[u64], mode: RegisterMode) -> Vec<(usize, u64, RegisterMode)> {
    indices
        .iter()
        .map(|index| (source(*index).host_virt_addr, source(*index).len, mode))
        .collect()
}

fn framed(regions: Vec<UffdHandoffRegionSource>, document: &[u8]) -> FramedHandoff {
    register(begin(regions), &mut Vec::new(), &|_, _| true)
        .unwrap()
        .describe(42)
        .serialized::<Refusal>(Ok(document.to_vec()))
        .unwrap()
}

/// An error that the platform holds from an earlier call.
fn stale_error() -> Error {
    Error::from(ErrorKind::Interrupted)
}

fn sent(document: &[u8]) -> SentHandoff {
    let (connected, ()) = framed(sources(2), document)
        .connected::<Refusal, ()>("/run/uffd.sock".to_string(), Ok(()))
        .unwrap();
    let len = connected.payload().len();
    connected.sent::<Refusal>(len as isize, stale_error()).unwrap()
}

/// The document of the metadata, as the peer parses it.
fn document_of(metadata: &UffdHandoffMetadata) -> Vec<u8> {
    let regions = metadata
        .regions
        .iter()
        .map(|region| {
            let mut record = serde_json::Map::new();
            record.insert("guest_phys_addr".into(), region.guest_phys_addr.into());
            record.insert("len".into(), region.len.into());
            record.insert("host_virt_addr".into(), region.host_virt_addr.into());
            record.insert("file_offset".into(), region.file_offset.into());
            record.insert("backing_dev".into(), region.backing_dev.into());
            record.insert("backing_ino".into(), region.backing_ino.into());
            record.insert("shared".into(), region.shared.into());
            serde_json::Value::Object(record)
        })
        .collect();
    let mut document = serde_json::Map::new();
    document.insert("protocol".into(), metadata.protocol.into());
    document.insert("version".into(), metadata.version.into());
    document.insert("pid".into(), metadata.pid.into());
    document.insert("user_mode_only".into(), metadata.user_mode_only.into());
    document.insert(
        "registered_write_protect".into(),
        metadata.registered_write_protect.into(),
    );
    document.insert("regions".into(), serde_json::Value::Array(regions));
    serde_json::to_vec(&document).unwrap()
}

#[test]
fn metadata_serializes_with_protocol_and_regions() {
    let region = UffdHandoffRegionSource {
        guest_phys_addr: 0,
        len: 4096,
        host_virt_addr: 0x7f00_0000_0000,
        file_offset: 0,
        backing_dev: 5,
        backing_ino: 9,
        shared: false,
    };
    let metadata = describe_handoff(&[region], 42, true, false);

    let value: serde_json::Value = serde_json::from_slice(&document_of(&metadata)).unwrap();
    assert_eq!(value["protocol"], UFFD_HANDOFF_PROTOCOL);
    assert_eq!(value["version"], 2);
    assert_eq!(value["pid"], 42);
    assert_eq!(value["user_mode_only"], true);
    assert_eq!(value["registered_write_protect"], false);
    assert_eq!(value["regions"][0]["len"], 4096);
    assert_eq!(value["regions"][0]["backing_ino"], 9);
}

#[test]
fn handoff_roundtrip_delivers_metadata_and_serves_the_regions() {
    let region = source(0);
    let registered = register(begin(vec![region]), &mut Vec::new(), &|_, _| true).unwrap();
    let described = registered.describe(7);
    let document = document_of(described.metadata());
    let (connected, stream) = described
        .serialized::<Refusal>(Ok(document))
        .unwrap()
        .connected::<Refusal, &str>("/run/uffd.sock".to_string(), Ok("the stream"))
        .unwrap();
    assert_eq!(stream, "the stream");

    let payload = connected.payload().to_vec();
    assert!(payload.len() > 4);
    let document_len =
        u32::from_le_bytes([payload[0], payload[1], payload[2], payload[3]]) as usize;
    assert_eq!(payload.len(), 4 + document_len);
    let value: serde_json::Value = serde_json::from_slice(&payload[4..]).unwrap();
    assert_eq!(value["protocol"], UFFD_HANDOFF_PROTOCOL);
    assert_eq!(value["version"], 2);
    assert_eq!(
        value["regions"][0]["host_virt_addr"].as_u64().unwrap() as usize,
        region.host_virt_addr
    );

    let acknowledged = connected
        .sent::<Refusal>(payload.len() as isize, stale_error())
        .unwrap()
        .acknowledged::<Refusal>(Ok(1), UFFD_HANDOFF_ACK)
        .unwrap();
    let session = acknowledged.session(Errnos::host());
    let metadata = acknowledged.started::<Refusal>(Ok(())).unwrap();
    assert_eq!(metadata.regions.len(), 1);
    assert_eq!(metadata.regions[0].host_virt_addr as usize, region.host_virt_addr);
    assert_eq!(metadata.pid, 7);
    assert_eq!(metadata.user_mode_only, false);
    assert_eq!(metadata.registered_write_protect, true);

    let header = [1, 2, 0, 0, 1, 0, 0, 0, 0, 0, 0, 0, 1, 0, 0, 0];
    let HeaderOutcome::Accepted(pending) = session.receive_header(&header) else {
        panic!("the header is not at fault");
    };
    match pending.receive_body(&2_u64.to_le_bytes()).next_step() {
        EvictStep::Advise(page) => {
            assert_eq!(page.host_va() as usize, region.host_virt_addr + 0x2000);
        }
        EvictStep::Respond(..) => panic!("the page is to be dropped"),
    }
}

#[test]
fn descriptor_falls_back_to_user_mode_only_once() {
    let Ok(Creation::Plain(creation)) = begin_uffd_handoff::<Refusal>(sources(1), false) else {
        panic!("a plain descriptor is to be created");
    };
    let mut options = DescriptorOptions {
        close_on_exec: true,
        non_blocking: false,
        user_mode_only: false,
        features: 0,
        ioctls: 0,
    };
    assert_eq!(creation.options(), options);
    let creation = creation.refused("not permitted").unwrap();
    options.user_mode_only = true;
    assert_eq!(creation.options(), options);
    let err = creation.refused("not supported").unwrap_err();
    assert!(matches!(err, UffdHandoffError::UffdCreate("not supported")));
    assert_eq!(err.message(), "failed to create userfaultfd descriptor");
}

#[test]
fn user_mode_only_is_reported() {
    let Ok(Creation::Plain(creation)) = begin_uffd_handoff::<Refusal>(sources(1), false) else {
        panic!("a plain descriptor is to be created");
    };
    let registration = creation.refused("not permitted").unwrap().created();
    let registered = register(registration, &mut Vec::new(), &|_, _| true).unwrap();
    assert_eq!(registered.describe(1).metadata().user_mode_only, true);
}

#[test]
fn minor_descriptor_is_opened_and_negotiated() {
    let Ok(Creation::Minor(creation)) = begin_uffd_handoff::<Refusal>(sources(2), true) else {
        panic!("a descriptor with minor faults is to be created");
    };
    assert_eq!(creation.open_flags(), libc::O_CLOEXEC);
    let negotiation = creation.opened();
    assert_eq!(UFFDIO_API_REQUEST, 0xC018_AA3F);
    assert_eq!(
        negotiation.api(),
        UffdioApi {
            api: 0xAA,
            features: (1 << 3) | (1 << 9),
            ioctls: 0,
        }
    );
    let creation = negotiation
        .refused::<Refusal>(Error::from(ErrorKind::InvalidInput))
        .unwrap();
    assert_eq!(creation.open_flags(), libc::O_CLOEXEC | 1);
    let mut asked = Vec::new();
    let registered = register(creation.opened().negotiated(), &mut asked, &|_, _| true).unwrap();
    assert_eq!(asked, asks(&[0, 1], RegisterMode::MissingMinor));
    let described = registered.describe(1);
    assert_eq!(described.metadata().user_mode_only, true);
    assert_eq!(described.metadata().registered_write_protect, false);
}

#[test]
fn minor_descriptor_fails_with_the_last_error() {
    let Ok(Creation::Minor(creation)) = begin_uffd_handoff::<Refusal>(sources(1), true) else {
        panic!("a descriptor with minor faults is to be created");
    };
    let err = creation
        .refused::<Refusal>(Error::from(ErrorKind::PermissionDenied))
        .unwrap()
        .refused::<Refusal>(Error::from(ErrorKind::Unsupported))
        .unwrap_err();
    assert_eq!(
        err.message(),
        "failed to create minor-fault-capable userfaultfd descriptor"
    );
    match err {
        UffdHandoffError::UffdMinorCreate(error) => {
            assert_eq!(error.kind(), ErrorKind::Unsupported);
        }
        other => panic!("unexpected error: {other:?}"),
    }
    let Ok(Creation::Minor(creation)) = begin_uffd_handoff::<Refusal>(sources(1), true) else {
        panic!("a descriptor with minor faults is to be created");
    };
    let err = creation
        .refused::<Refusal>(Error::from(ErrorKind::PermissionDenied))
        .unwrap()
        .opened()
        .refused::<Refusal>(Error::from(ErrorKind::InvalidInput))
        .unwrap_err();
    assert!(matches!(err, UffdHandoffError::UffdMinorCreate(_)));
}

#[test]
fn open_flags_take_the_platform_flag() {
    assert_eq!(minor_open_flags(0x8_0000, false), 0x8_0000);
    assert_eq!(minor_open_flags(0x8_0000, true), 0x8_0001);
}

#[test]
fn regions_are_registered_with_write_protection() {
    let mut asked = Vec::new();
    let registered = register(begin(sources(3)), &mut asked, &|_, _| true).unwrap();
    assert_eq!(asked, asks(&[0, 1, 2], RegisterMode::MissingWriteProtect));
    assert_eq!(registered.describe(1).metadata().registered_write_protect, true);
}

#[test]
fn refused_write_protection_registers_all_regions_again() {
    let last = source(2).host_virt_addr;
    let mut asked = Vec::new();
    let registered = register(begin(sources(3)), &mut asked, &|address, mode| {
        address != last || mode != RegisterMode::MissingWriteProtect
    })
    .unwrap();
    let mut expected = asks(&[0, 1, 2], RegisterMode::MissingWriteProtect);
    expected.extend(asks(&[0, 1, 2], RegisterMode::Missing));
    assert_eq!(asked, expected);
    assert_eq!(registered.describe(1).metadata().registered_write_protect, false);
}

#[test]
fn refused_region_is_named() {
    let second = source(1).host_virt_addr;
    let mut asked = Vec::new();
    let err = register(begin(sources(3)), &mut asked, &|address, _| address != second).unwrap_err();
    let mut expected = asks(&[0, 1], RegisterMode::MissingWriteProtect);
    expected.extend(asks(&[0, 1], RegisterMode::Missing));
    assert_eq!(asked, expected);
    assert_eq!(
        err.message(),
        "failed to register guest RAM range (host_virt_addr 0x7f0001000000, len 16385) with \
         userfaultfd"
    );
    match err {
        UffdHandoffError::UffdRegister {
            host_virt_addr,
            len,
            source,
        } => {
            assert_eq!(host_virt_addr, second);
            assert_eq!(len, 0x4001);
            assert_eq!(source, "refused");
        }
        other => panic!("unexpected error: {other:?}"),
    }
}

#[test]
fn refused_minor_registration_fails_at_once() {
    let Ok(Creation::Minor(creation)) = begin_uffd_handoff::<Refusal>(sources(2), true) else {
        panic!("a descriptor with minor faults is to be created");
    };
    let mut asked = Vec::new();
    let err = register(creation.opened().negotiated(), &mut asked, &|_, _| false).unwrap_err();
    assert_eq!(asked, asks(&[0], RegisterMode::MissingMinor));
    assert!(matches!(err, UffdHandoffError::UffdRegister { .. }));
}

#[test]
fn metadata_describes_every_region_in_order() {
    let metadata = describe_handoff(&sources(2), 3, false, true);
    assert_eq!(metadata.protocol, "meridian-cloud-hypervisor-uffd-handoff");
    assert_eq!(metadata.version, UFFD_HANDOFF_VERSION);
    assert_eq!(
        metadata.regions,
        vec![
            UffdHandoffRegion {
                guest_phys_addr: 0,
                len: 0x4000,
                host_virt_addr: 0x7f00_0000_0000,
                file_offset: 0,
                backing_dev: 5,
                backing_ino: 9,
                shared: false,
            },
            UffdHandoffRegion {
                guest_phys_addr: 0x10_0000,
                len: 0x4001,
                host_virt_addr: 0x7f00_0100_0000,
                file_offset: 0x2000,
                backing_dev: 6,
                backing_ino: 10,
                shared: true,
            },
        ]
    );
}

#[test]
fn cooperation_regions_follow_the_sources() {
    assert_eq!(
        cooperation_regions(&sources(2)),
        vec![
            CooperationRegion {
                guest_phys_addr: 0,
                host_virt_addr: 0x7f00_0000_0000,
                len: 0x4000,
                shared: false,
            },
            CooperationRegion {
                guest_phys_addr: 0x10_0000,
                host_virt_addr: 0x7f00_0100_0000,
                len: 0x4001,
                shared: true,
            },
        ]
    );
}

#[test]
fn payload_has_a_length_prefix() {
    assert_eq!(frame_document(b""), vec![0, 0, 0, 0]);
    assert_eq!(frame_document(b"{}"), vec![2, 0, 0, 0, b'{', b'}']);
    let long = frame_document(&[7; 0x1_0203]);
    assert_eq!(long[..4], [0x03, 0x02, 0x01, 0x00]);
    assert_eq!(long.len(), 4 + 0x1_0203);
}

#[test]
fn serialization_failure_ends_the_handoff() {
    let error = serde_json::from_str::<u8>("x").unwrap_err();
    let err = register(begin(sources(1)), &mut Vec::new(), &|_, _| true)
        .unwrap()
        .describe(1)
        .serialized::<Refusal>(Err(error))
        .unwrap_err();
    assert!(matches!(err, UffdHandoffError::Serialize(_)));
    assert_eq!(err.message(), "failed to serialize uffd handoff metadata");
}

#[test]
fn short_and_failed_sends_end_the_handoff() {
    let connected = |document: &[u8]| {
        framed(sources(1), document)
            .connected::<Refusal, ()>("/run/uffd.sock".to_string(), Ok(()))
            .unwrap()
            .0
    };
    let error_of = |document: &[u8], returned, os_error| {
        match connected(document).sent::<Refusal>(returned, os_error) {
            Err(UffdHandoffError::SocketSend(error)) => error,
            other => panic!("unexpected outcome: {other:?}"),
        }
    };
    assert!(connected(b"{}").sent::<Refusal>(6, stale_error()).is_ok());

    let error = error_of(b"{}", -1, Error::from(ErrorKind::BrokenPipe));
    assert_eq!(error.kind(), ErrorKind::BrokenPipe);

    let error = error_of(b"x", 3, stale_error());
    assert_eq!(error.kind(), ErrorKind::WriteZero);
    assert_eq!(error.to_string(), "short sendmsg: sent 3 of 5 payload bytes");
    let error = error_of(&[b' '; 1230], 107, stale_error());
    assert_eq!(error.kind(), ErrorKind::WriteZero);
    assert_eq!(error.to_string(), "short sendmsg: sent 107 of 1234 payload bytes");
    let error = error_of(b"{}", 0, stale_error());
    assert_eq!(error.to_string(), "short sendmsg: sent 0 of 6 payload bytes");
}

#[test]
fn what_sendmsg_returned_is_told_apart() {
    assert!(matches!(send_outcome(-1, 6), SendOutcome::OsError));
    assert!(matches!(send_outcome(6, 6), SendOutcome::Whole));
    assert!(matches!(send_outcome(0, 0), SendOutcome::Whole));
    match send_outcome(3, 5) {
        SendOutcome::Short(message) => {
            assert_eq!(message, "short sendmsg: sent 3 of 5 payload bytes");
        }
        other => panic!("unexpected outcome: {other:?}"),
    }
}

#[test]
fn only_the_right_acknowledgement_is_accepted() {
    let err = sent(b"{}").acknowledged::<Refusal>(Ok(0), 0).unwrap_err();
    assert!(matches!(err, UffdHandoffError::AckEof));
    assert_eq!(
        err.message(),
        "uffd handoff peer closed the socket before acknowledging the payload"
    );
    let err = sent(b"{}").acknowledged::<Refusal>(Ok(1), 0xFE).unwrap_err();
    assert!(matches!(err, UffdHandoffError::AckUnexpected(0xFE)));
    assert_eq!(
        err.message(),
        "uffd handoff peer returned unexpected acknowledgement byte 0xfe"
    );
    let err = sent(b"{}")
        .acknowledged::<Refusal>(Err(Error::from(ErrorKind::TimedOut)), 1)
        .unwrap_err();
    assert!(matches!(err, UffdHandoffError::AckRead(_)));
    assert_eq!(err.message(), "failed to read uffd handoff acknowledgement");
    assert!(sent(b"{}").acknowledged::<Refusal>(Ok(1), 1).is_ok());
}

#[test]
fn thread_that_does_not_start_ends_the_handoff() {
    let err = sent(b"{}")
        .acknowledged::<Refusal>(Ok(1), 1)
        .unwrap()
        .started::<Refusal>(Err(Error::from(ErrorKind::WouldBlock)))
        .unwrap_err();
    assert!(matches!(err, UffdHandoffError::CooperationThreadSpawn(_)));
    assert_eq!(
        err.message(),
        "failed to spawn the uffd cooperation control thread"
    );
}

#[test]
fn messages_name_numbers() {
    let register = |host_virt_addr, len| HandoffError::UffdRegister {
        host_virt_addr,
        len,
        source: "",
    };
    assert_eq!(
        register(0, 0).message(),
        "failed to register guest RAM range (host_virt_addr 0x0, len 0) with userfaultfd"
    );
    assert_eq!(
        register(0xabcdef, u64::MAX).message(),
        "failed to register guest RAM range (host_virt_addr 0xabcdef, len 18446744073709551615) \
         with userfaultfd"
    );
    assert_eq!(
        HandoffError::NoEligibleRegions.message(),
        "guest RAM has no eligible regions for userfaultfd handoff"
    );
    assert_eq!(
        HandoffError::SocketSend(Error::from(ErrorKind::WriteZero)).message(),
        "failed to send uffd handoff payload"
    );
}
