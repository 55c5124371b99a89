//! Conversations between a peer and a session, over byte streams and pages held in memory.

use std::io::Read;

use uffd_handoff::{
    advice_result, answer_request, cooperation_loop_with_madvise, decode_pfns,
    encode_evict_response, evict_one_pfn, madvise_outcome, serve_request, CooperationRegion,
    CooperationSession, Errnos, EvictHeader, HeaderOutcome, PageDecision,
    COOP_EVICT_REQUEST_HEADER_BYTES,
    COOP_EVICT_RESPONSE_HEADER_BYTES, COOP_EVICT_RESULT_BYTES, COOP_FRAME_VERSION,
    COOP_MAX_EVICT_PFNS, COOP_OP_EVICT, COOP_OP_EVICT_RESULT, COOP_PAGE_SIZE,
};

/// Private pages at some host address.
struct AnonymousPrivateMapping {
    addr: u64,
    bytes: Vec<u8>,
}

impl AnonymousPrivateMapping {
    fn new(pages: usize) -> Self {
        Self {
            addr: 0x7f00_0000_0000,
            bytes: vec![0; pages * COOP_PAGE_SIZE as usize],
        }
    }

    fn region(&self) -> CooperationRegion {
        CooperationRegion {
            guest_phys_addr: 0,
            host_virt_addr: self.addr,
            len: self.bytes.len() as u64,
            shared: false,
        }
    }

    fn fill(&mut self, byte: u8) {
        self.bytes.fill(byte);
    }

    fn byte_at(&self, offset: usize) -> u8 {
        self.bytes[offset]
    }

    /// Drops one page, which then reads as zeros.
    fn drop_page(&mut self, host_va: u64) -> Result<(), i32> {
        let from = (host_va - self.addr) as usize;
        self.bytes[from..from + COOP_PAGE_SIZE as usize].fill(0);
        Ok(())
    }
}

#[derive(Debug, Eq, PartialEq)]
struct EvictResponse {
    sequence: u64,
    frame_errno: i32,
    results: Vec<(u64, i32)>,
}

fn evict_request_header(op: u8, version: u8, reserved: u16, sequence: u64, count: u32) -> Vec<u8> {
    let mut request = Vec::with_capacity(COOP_EVICT_REQUEST_HEADER_BYTES);
    request.push(op);
    request.push(version);
    request.extend_from_slice(&reserved.to_le_bytes());
    request.extend_from_slice(&sequence.to_le_bytes());
    request.extend_from_slice(&count.to_le_bytes());
    request
}

fn evict_request(sequence: u64, pfns: &[u64]) -> Vec<u8> {
    let count = u32::try_from(pfns.len()).unwrap();
    let mut request = evict_request_header(COOP_OP_EVICT, COOP_FRAME_VERSION, 0, sequence, count);
    for pfn in pfns {
        request.extend_from_slice(&pfn.to_le_bytes());
    }
    request
}

/// Takes one response off the front of what was written.
fn read_evict_response(written: &mut Vec<u8>) -> EvictResponse {
    let header: Vec<u8> = written.drain(..COOP_EVICT_RESPONSE_HEADER_BYTES).collect();
    assert_eq!(header[0], COOP_OP_EVICT_RESULT);
    assert_eq!(header[1], COOP_FRAME_VERSION);
    assert_eq!(u16::from_le_bytes(header[2..4].try_into().unwrap()), 0);
    let sequence = u64::from_le_bytes(header[4..12].try_into().unwrap());
    let frame_errno = i32::from_le_bytes(header[12..16].try_into().unwrap());
    let count = u32::from_le_bytes(header[16..20].try_into().unwrap()) as usize;
    let result_bytes: Vec<u8> = written.drain(..count * COOP_EVICT_RESULT_BYTES).collect();
    let results = result_bytes
        .chunks_exact(COOP_EVICT_RESULT_BYTES)
        .map(|chunk| {
            (
                u64::from_le_bytes(chunk[..8].try_into().unwrap()),
                i32::from_le_bytes(chunk[8..12].try_into().unwrap()),
            )
        })
        .collect();
    EvictResponse {
        sequence,
        frame_errno,
        results,
    }
}

/// A peer and pages, held in memory.
struct Surroundings<'a> {
    stream: &'a mut dyn Read,
    written: &'a mut Vec<u8>,
    madvise_page: &'a mut dyn FnMut(u64) -> Result<(), i32>,
    /// Whether the stream ended between two requests.
    open: bool,
}

impl Surroundings<'_> {
    fn read_header(mut self) -> (Self, Option<[u8; COOP_EVICT_REQUEST_HEADER_BYTES]>) {
        let mut header = [0_u8; COOP_EVICT_REQUEST_HEADER_BYTES];
        if self.stream.read(&mut header[..1]).unwrap() == 0 {
            self.open = true;
            return (self, None);
        }
        let header = self.stream.read_exact(&mut header[1..]).ok().map(|()| header);
        (self, header)
    }

    fn read_body(self, len: usize) -> (Self, Option<Vec<u8>>) {
        let mut body = vec![0_u8; len];
        let body = self.stream.read_exact(&mut body).ok().map(|()| body);
        (self, body)
    }

    fn write(self, response: &[u8]) -> (Self, bool) {
        self.written.extend_from_slice(response);
        (self, true)
    }

    fn drop_page(self, host_va: u64) -> (Self, Result<(), i32>) {
        let outcome = (self.madvise_page)(host_va);
        (self, outcome)
    }
}

/// Serves the requests on `stream` until the conversation ends. Tells whether it ended because the
/// stream did, between two requests.
fn cooperate(
    session: CooperationSession,
    stream: &mut dyn Read,
    written: &mut Vec<u8>,
    madvise_page: &mut dyn FnMut(u64) -> Result<(), i32>,
) -> bool {
    let surroundings = Surroundings {
        stream,
        written,
        madvise_page,
        open: false,
    };
    cooperation_loop_with_madvise(
        surroundings,
        session,
        Surroundings::read_header,
        Surroundings::read_body,
        Surroundings::write,
        Surroundings::drop_page,
    )
    .open
}

fn start(regions: Vec<CooperationRegion>) -> CooperationSession {
    CooperationSession::new(Errnos::host(), regions)
}

fn unexpected_drop(_host_va: u64) -> Result<(), i32> {
    panic!("no page is to be dropped");
}

fn injected_madvise_failure(_host_va: u64) -> Result<(), i32> {
    Err(libc::EBUSY)
}

fn assert_invalid_header(request: &[u8], sequence: u64, frame_errno: i32) {
    let mut stream = request;
    let mut written = Vec::new();
    let open = cooperate(start(vec![]), &mut stream, &mut written, &mut unexpected_drop);
    assert_eq!(
        read_evict_response(&mut written),
        EvictResponse {
            sequence,
            frame_errno,
            results: vec![],
        }
    );
    assert!(written.is_empty());
    assert!(!open);
}

fn assert_truncated_request_closes_without_response(request: &[u8]) {
    let mut stream = request;
    let mut written = Vec::new();
    let open = cooperate(start(vec![]), &mut stream, &mut written, &mut unexpected_drop);
    assert!(written.is_empty());
    assert!(!open);
}

#[test]
fn cooperation_v2_acks_only_after_every_page_is_evicted() {
    let mut mapping = AnonymousPrivateMapping::new(2);
    mapping.fill(0xA5);
    let session = start(vec![mapping.region()]);
    let request = evict_request(1, &[0, 1]);
    let mut written = Vec::new();
    let mut dropped = Vec::new();
    cooperate(session, &mut &request[..], &mut written, &mut |host_va| {
        dropped.push(host_va);
        mapping.drop_page(host_va)
    });
    assert_eq!(
        read_evict_response(&mut written),
        EvictResponse {
            sequence: 1,
            frame_errno: 0,
            results: vec![(0, 0), (1, 0)],
        }
    );
    assert_eq!(mapping.byte_at(0), 0);
    assert_eq!(mapping.byte_at(COOP_PAGE_SIZE as usize), 0);
    assert_eq!(dropped, vec![mapping.addr, mapping.addr + COOP_PAGE_SIZE]);
}

#[test]
fn cooperation_v2_zero_count_ack_is_a_sequenced_barrier() {
    let mut mapping = AnonymousPrivateMapping::new(1);
    mapping.fill(0xD4);
    let session = start(vec![mapping.region()]);
    let mut requests = evict_request(1, &[]);
    requests.extend(evict_request(2, &[0]));
    // Each response, and what the page holds when it is written.
    let written: Vec<(EvictResponse, u8)> = Vec::new();
    let (_, _, written) = cooperation_loop_with_madvise(
        (&requests[..], mapping, written),
        session,
        |(mut stream, mapping, written)| {
            let mut header = [0_u8; COOP_EVICT_REQUEST_HEADER_BYTES];
            let header = stream.read_exact(&mut header).ok().map(|()| header);
            ((stream, mapping, written), header)
        },
        |(mut stream, mapping, written), len| {
            let mut body = vec![0_u8; len];
            let body = stream.read_exact(&mut body).ok().map(|()| body);
            ((stream, mapping, written), body)
        },
        |(stream, mapping, mut written), response: &[u8]| {
            let byte = mapping.byte_at(0);
            written.push((read_evict_response(&mut response.to_vec()), byte));
            ((stream, mapping, written), true)
        },
        |(stream, mut mapping, written), host_va| {
            let outcome = mapping.drop_page(host_va);
            ((stream, mapping, written), outcome)
        },
    );
    assert_eq!(
        written,
        vec![
            (
                EvictResponse {
                    sequence: 1,
                    frame_errno: 0,
                    results: vec![],
                },
                0xD4
            ),
            (
                EvictResponse {
                    sequence: 2,
                    frame_errno: 0,
                    results: vec![(0, 0)],
                },
                0
            ),
        ]
    );
}

#[test]
fn cooperation_v2_reports_invalid_pfn_without_hiding_valid_results() {
    let mut mapping = AnonymousPrivateMapping::new(1);
    mapping.fill(0x5A);
    let session = start(vec![mapping.region()]);
    let request = evict_request(1, &[0, 99]);
    let mut written = Vec::new();
    cooperate(session, &mut &request[..], &mut written, &mut |host_va| {
        mapping.drop_page(host_va)
    });
    assert_eq!(
        read_evict_response(&mut written),
        EvictResponse {
            sequence: 1,
            frame_errno: 0,
            results: vec![(0, 0), (99, libc::ERANGE)],
        }
    );
    assert_eq!(mapping.byte_at(0), 0);
}

#[test]
fn cooperation_v2_reports_injected_madvise_failure() {
    let mut mapping = AnonymousPrivateMapping::new(1);
    mapping.fill(0xC3);
    let session = start(vec![mapping.region()]);
    let request = evict_request(1, &[0]);
    let mut written = Vec::new();
    cooperate(
        session,
        &mut &request[..],
        &mut written,
        &mut injected_madvise_failure,
    );
    assert_eq!(
        read_evict_response(&mut written),
        EvictResponse {
            sequence: 1,
            frame_errno: 0,
            results: vec![(0, libc::EBUSY)],
        }
    );
    assert_eq!(mapping.byte_at(0), 0xC3);
}

#[test]
fn cooperation_v2_reports_shared_region_as_unsupported() {
    let mut mapping = AnonymousPrivateMapping::new(1);
    mapping.fill(0xB6);
    let mut region = mapping.region();
    region.shared = true;
    let request = evict_request(1, &[0]);
    let mut written = Vec::new();
    cooperate(
        start(vec![region]),
        &mut &request[..],
        &mut written,
        &mut |host_va| mapping.drop_page(host_va),
    );
    assert_eq!(
        read_evict_response(&mut written),
        EvictResponse {
            sequence: 1,
            frame_errno: 0,
            results: vec![(0, libc::EOPNOTSUPP)],
        }
    );
    assert_eq!(mapping.byte_at(0), 0xB6);
}

#[test]
fn cooperation_v2_reports_pfn_and_region_overflow_as_range_errors() {
    let overflow_region = CooperationRegion {
        guest_phys_addr: COOP_PAGE_SIZE,
        host_virt_addr: 0,
        len: u64::MAX,
        shared: false,
    };
    let request = evict_request(1, &[u64::MAX, 1]);
    let mut written = Vec::new();
    cooperate(
        start(vec![overflow_region]),
        &mut &request[..],
        &mut written,
        &mut unexpected_drop,
    );
    assert_eq!(
        read_evict_response(&mut written),
        EvictResponse {
            sequence: 1,
            frame_errno: 0,
            results: vec![(u64::MAX, libc::ERANGE), (1, libc::ERANGE)],
        }
    );
}

#[test]
fn cooperation_v2_rejects_invalid_opcode_and_closes() {
    assert_invalid_header(
        &evict_request_header(0x7f, COOP_FRAME_VERSION, 0, 1, 0),
        1,
        libc::EOPNOTSUPP,
    );
}

#[test]
fn cooperation_v2_rejects_invalid_frame_version_and_closes() {
    assert_invalid_header(
        &evict_request_header(COOP_OP_EVICT, 1, 0, 1, 0),
        1,
        libc::EPROTONOSUPPORT,
    );
}

#[test]
fn cooperation_v2_rejects_nonzero_reserved_and_closes() {
    assert_invalid_header(
        &evict_request_header(COOP_OP_EVICT, COOP_FRAME_VERSION, 1, 1, 0),
        1,
        libc::EPROTO,
    );
}

#[test]
fn cooperation_v2_rejects_oversized_count_without_reading_body() {
    assert_invalid_header(
        &evict_request_header(
            COOP_OP_EVICT,
            COOP_FRAME_VERSION,
            0,
            1,
            COOP_MAX_EVICT_PFNS + 1,
        ),
        1,
        libc::E2BIG,
    );
}

#[test]
fn cooperation_v2_rejects_non_monotonic_sequence() {
    let mut mapping = AnonymousPrivateMapping::new(1);
    mapping.fill(0x7D);
    let session = start(vec![mapping.region()]);
    let request = evict_request(2, &[0]);
    let mut written = Vec::new();
    let open = cooperate(session, &mut &request[..], &mut written, &mut |host_va| {
        mapping.drop_page(host_va)
    });
    assert_eq!(
        read_evict_response(&mut written),
        EvictResponse {
            sequence: 2,
            frame_errno: libc::EPROTO,
            results: vec![],
        }
    );
    assert_eq!(mapping.byte_at(0), 0x7D);
    assert!(written.is_empty());
    assert!(!open);
}

#[test]
fn cooperation_v2_truncated_header_and_body_close_without_response() {
    let header = evict_request_header(COOP_OP_EVICT, COOP_FRAME_VERSION, 0, 1, 2);
    assert_truncated_request_closes_without_response(&header[..8]);

    let mut truncated_body = header;
    truncated_body.extend_from_slice(&0_u64.to_le_bytes());
    assert_truncated_request_closes_without_response(&truncated_body);
}

/// A stream that hands out one byte at a time.
struct Fragmented(Vec<u8>);

impl Read for Fragmented {
    fn read(&mut self, buffer: &mut [u8]) -> std::io::Result<usize> {
        if buffer.is_empty() || self.0.is_empty() {
            return Ok(0);
        }
        buffer[0] = self.0.remove(0);
        Ok(1)
    }
}

#[test]
fn cooperation_v2_accepts_fully_fragmented_request_io() {
    let mut mapping = AnonymousPrivateMapping::new(1);
    mapping.fill(0x4B);
    let session = start(vec![mapping.region()]);
    let mut stream = Fragmented(evict_request(1, &[0]));
    let mut written = Vec::new();
    cooperate(session, &mut stream, &mut written, &mut |host_va| {
        mapping.drop_page(host_va)
    });
    assert_eq!(
        read_evict_response(&mut written),
        EvictResponse {
            sequence: 1,
            frame_errno: 0,
            results: vec![(0, 0)],
        }
    );
    assert_eq!(mapping.byte_at(0), 0);
}

#[test]
fn consecutive_requests_are_answered_in_sequence_until_one_is_at_fault() {
    let mut mapping = AnonymousPrivateMapping::new(3);
    mapping.fill(0x11);
    let session = start(vec![mapping.region()]);
    let mut stream = evict_request(1, &[2, 2]);
    stream.extend(evict_request(2, &[]));
    stream.extend(evict_request(3, &[7, 0]));
    stream.extend(evict_request(3, &[1]));
    stream.extend(evict_request(4, &[1]));
    let mut written = Vec::new();
    let mut dropped = Vec::new();
    let open = cooperate(session, &mut &stream[..], &mut written, &mut |host_va| {
        dropped.push((host_va - 0x7f00_0000_0000) / COOP_PAGE_SIZE);
        mapping.drop_page(host_va)
    });
    let expected = [
        (1, 0, vec![(2, 0), (2, 0)]),
        (2, 0, vec![]),
        (3, 0, vec![(7, libc::ERANGE), (0, 0)]),
        (3, libc::EPROTO, vec![]),
    ];
    for (sequence, frame_errno, results) in expected {
        assert_eq!(
            read_evict_response(&mut written),
            EvictResponse {
                sequence,
                frame_errno,
                results,
            }
        );
    }
    assert!(written.is_empty());
    assert!(!open);
    assert_eq!(dropped, vec![2, 2, 0]);
    assert_eq!(mapping.byte_at(COOP_PAGE_SIZE as usize), 0x11);
}

/// What a conversation asks of its surroundings, in its order.
#[derive(Debug, PartialEq)]
enum Call {
    Header,
    Body(usize),
    Drop(u64),
    Write(u64, i32),
}

/// A peer that sends these headers and bodies and takes so many responses, and the calls that were
/// made.
struct Script {
    headers: Vec<Vec<u8>>,
    bodies: Vec<Option<Vec<u8>>>,
    writable: usize,
    calls: Vec<Call>,
}

impl Script {
    fn read_header(mut self) -> (Self, Option<[u8; COOP_EVICT_REQUEST_HEADER_BYTES]>) {
        self.calls.push(Call::Header);
        if self.headers.is_empty() {
            return (self, None);
        }
        let header = self.headers.remove(0).try_into().unwrap();
        (self, Some(header))
    }

    fn read_body(mut self, len: usize) -> (Self, Option<Vec<u8>>) {
        self.calls.push(Call::Body(len));
        let body = self.bodies.remove(0);
        (self, body)
    }

    fn write(mut self, response: &[u8]) -> (Self, bool) {
        let response = read_evict_response(&mut response.to_vec());
        self.calls.push(Call::Write(response.sequence, response.frame_errno));
        let written = self.writable > 0;
        self.writable = self.writable.saturating_sub(1);
        (self, written)
    }

    fn drop_page(mut self, host_va: u64) -> (Self, Result<(), i32>) {
        self.calls.push(Call::Drop(host_va));
        (self, Ok(()))
    }
}

/// Serves the given headers and bodies, and keeps what was asked for. Only so many responses can be
/// written.
fn calls_of(
    session: CooperationSession,
    headers: Vec<Vec<u8>>,
    bodies: Vec<Option<Vec<u8>>>,
    writable: usize,
) -> Vec<Call> {
    let script = Script {
        headers,
        bodies,
        writable,
        calls: Vec::new(),
    };
    cooperation_loop_with_madvise(
        script,
        session,
        Script::read_header,
        Script::read_body,
        Script::write,
        Script::drop_page,
    )
    .calls
}

fn pfns(numbers: &[u64]) -> Option<Vec<u8>> {
    Some(numbers.iter().flat_map(|pfn| pfn.to_le_bytes()).collect())
}

#[test]
fn pages_are_dropped_before_the_response_and_it_before_the_next_header() {
    let region = AnonymousPrivateMapping::new(4).region();
    let header = |sequence, count| evict_request_header(1, COOP_FRAME_VERSION, 0, sequence, count);
    let calls = calls_of(
        start(vec![region]),
        vec![header(1, 3), header(2, 0), header(3, 1)],
        vec![pfns(&[3, 9, 1]), pfns(&[0])],
        9,
    );
    assert_eq!(
        calls,
        vec![
            Call::Header,
            Call::Body(24),
            Call::Drop(0x7f00_0000_3000),
            Call::Drop(0x7f00_0000_1000),
            Call::Write(1, 0),
            Call::Header,
            Call::Write(2, 0),
            Call::Header,
            Call::Body(8),
            Call::Drop(0x7f00_0000_0000),
            Call::Write(3, 0),
            Call::Header,
        ]
    );
}

#[test]
fn conversation_ends_where_its_surroundings_fail() {
    let region = AnonymousPrivateMapping::new(1).region();
    let header = |sequence, count| evict_request_header(1, COOP_FRAME_VERSION, 0, sequence, count);
    // The response cannot be written.
    assert_eq!(
        calls_of(start(vec![region]), vec![header(1, 0), header(2, 0)], vec![], 0),
        vec![Call::Header, Call::Write(1, 0)]
    );
    // The body is missing, or not of the length that was asked for.
    for body in [None, pfns(&[0]), pfns(&[0, 0, 0])] {
        assert_eq!(
            calls_of(start(vec![region]), vec![header(1, 2), header(2, 0)], vec![body], 9),
            vec![Call::Header, Call::Body(16)]
        );
    }
    // The header is at fault; whether the rejection could be written does not matter.
    for writable in [0, 9] {
        assert_eq!(
            calls_of(start(vec![region]), vec![header(5, 2), header(1, 0)], vec![], writable),
            vec![Call::Header, Call::Write(5, libc::EPROTO)]
        );
    }
}

#[test]
fn request_is_answered_with_what_came_of_each_page() {
    let region = AnonymousPrivateMapping::new(3).region();
    let header = evict_request_header(1, COOP_FRAME_VERSION, 0, 1, 4);
    let HeaderOutcome::Accepted(pending) =
        start(vec![region]).receive_header(&header.try_into().unwrap())
    else {
        panic!("the header is not at fault");
    };
    let body = pfns(&[0, 1, 5, 2]).unwrap();
    let (dropped, mut response, next) =
        answer_request(Vec::new(), pending, &body, &|mut dropped: Vec<u64>, host_va| {
            dropped.push(host_va);
            let outcome = match host_va & 0xf000 {
                0x1000 => Err(libc::EBUSY),
                0x2000 => Err(0),
                _ => Ok(()),
            };
            (dropped, outcome)
        });
    assert_eq!(dropped, vec![0x7f00_0000_0000, 0x7f00_0000_1000, 0x7f00_0000_2000]);
    assert_eq!(
        read_evict_response(&mut response),
        EvictResponse {
            sequence: 1,
            frame_errno: 0,
            results: vec![(0, 0), (1, libc::EBUSY), (5, libc::ERANGE), (2, libc::EIO)],
        }
    );
    assert!(next.is_some());
}

#[test]
fn one_request_is_served_at_a_time() {
    let region = AnonymousPrivateMapping::new(1).region();
    let script = Script {
        headers: vec![
            evict_request_header(1, COOP_FRAME_VERSION, 0, 1, 0),
            evict_request_header(1, COOP_FRAME_VERSION, 0, 2, 1),
        ],
        bodies: vec![None],
        writable: 9,
        calls: Vec::new(),
    };
    let (script, next) = serve_request(
        script,
        start(vec![region]),
        &Script::read_header,
        &Script::read_body,
        &Script::write,
        &Script::drop_page,
    );
    assert_eq!(script.calls, vec![Call::Header, Call::Write(1, 0)]);
    let (script, next) = serve_request(
        script,
        next.unwrap(),
        &Script::read_header,
        &Script::read_body,
        &Script::write,
        &Script::drop_page,
    );
    assert_eq!(
        script.calls,
        vec![Call::Header, Call::Write(1, 0), Call::Header, Call::Body(8)]
    );
    assert!(next.is_none());
}

#[test]
fn same_bytes_give_the_same_conversation() {
    let mut requests = evict_request(1, &[1, 0]);
    requests.extend(evict_request(2, &[7]));
    requests.extend(evict_request(2, &[0]));
    requests.extend(evict_request(3, &[0]));
    let conversation = |stream: &mut dyn Read| {
        let mut mapping = AnonymousPrivateMapping::new(2);
        let mut written = Vec::new();
        let mut dropped = Vec::new();
        let session = start(vec![mapping.region()]);
        cooperate(session, stream, &mut written, &mut |host_va| {
            dropped.push(host_va);
            mapping.drop_page(host_va)
        });
        (written, dropped)
    };
    let whole = conversation(&mut &requests[..]);
    assert_eq!(whole.1, vec![0x7f00_0000_1000, 0x7f00_0000_0000]);
    assert_eq!(whole, conversation(&mut Fragmented(requests)));
}

#[test]
fn bytes_alone_decide_what_is_dropped() {
    let mut requests = evict_request(1, &[1, 5, 0]);
    requests.extend(evict_request(2, &[0]));
    let dropped_with = |outcome: Result<(), i32>| {
        let region = AnonymousPrivateMapping::new(2).region();
        let mut dropped = Vec::new();
        cooperate(start(vec![region]), &mut &requests[..], &mut Vec::new(), &mut |host_va| {
            dropped.push(host_va);
            outcome
        });
        dropped
    };
    let expected = vec![0x7f00_0000_1000, 0x7f00_0000_0000, 0x7f00_0000_0000];
    assert_eq!(dropped_with(Ok(())), expected);
    assert_eq!(dropped_with(Err(libc::EBUSY)), expected);
}

#[test]
fn largest_count_is_accepted() {
    let header = evict_request_header(COOP_OP_EVICT, COOP_FRAME_VERSION, 0, 1, COOP_MAX_EVICT_PFNS);
    match start(vec![]).receive_header(&header.try_into().unwrap()) {
        HeaderOutcome::Accepted(pending) => assert_eq!(pending.body_len(), 524_288),
        HeaderOutcome::Rejected(_) => panic!("the count is not too large"),
    }
}

#[test]
fn faults_of_a_header_are_reported_in_order() {
    let errnos = Errnos::host();
    let mut header = EvictHeader {
        op: 0x02,
        version: 1,
        reserved: 1,
        sequence: 9,
        count: COOP_MAX_EVICT_PFNS + 1,
    };
    assert_eq!(header.fault(&errnos, 5), Some(libc::EOPNOTSUPP));
    header.op = COOP_OP_EVICT;
    assert_eq!(header.fault(&errnos, 5), Some(libc::EPROTONOSUPPORT));
    header.version = COOP_FRAME_VERSION;
    assert_eq!(header.fault(&errnos, 5), Some(libc::EPROTO));
    header.reserved = 0;
    assert_eq!(header.fault(&errnos, 5), Some(libc::EPROTO));
    header.sequence = 5;
    assert_eq!(header.fault(&errnos, 5), Some(libc::E2BIG));
    header.count = COOP_MAX_EVICT_PFNS;
    assert_eq!(header.fault(&errnos, 5), None);
}

#[test]
fn header_fields_are_little_endian() {
    let bytes = [
        0x01, 0x02, 0x34, 0x12, 8, 7, 6, 5, 4, 3, 2, 1, 0xdd, 0xcc, 0xbb, 0xaa,
    ];
    assert_eq!(
        EvictHeader::decode(&bytes),
        EvictHeader {
            op: 1,
            version: 2,
            reserved: 0x1234,
            sequence: 0x0102_0304_0506_0708,
            count: 0xaabb_ccdd,
        }
    );
}

#[test]
fn body_is_read_in_whole_numbers() {
    let mut body = 0x1122_3344_5566_7788_u64.to_le_bytes().to_vec();
    body.extend_from_slice(&u64::MAX.to_le_bytes());
    assert_eq!(decode_pfns(&body), vec![0x1122_3344_5566_7788, u64::MAX]);
    body.push(3);
    assert_eq!(decode_pfns(&body), vec![0x1122_3344_5566_7788, u64::MAX]);
    assert_eq!(decode_pfns(&[]), Vec::<u64>::new());
}

#[test]
fn response_has_exact_bytes() {
    let response = encode_evict_response(0x0102_0304_0506_0708, -2, &[(0x99, 34), (u64::MAX, 0)]);
    let mut expected = vec![0x81, 0x02, 0, 0, 8, 7, 6, 5, 4, 3, 2, 1];
    expected.extend_from_slice(&[0xfe, 0xff, 0xff, 0xff, 2, 0, 0, 0]);
    expected.extend_from_slice(&[0x99, 0, 0, 0, 0, 0, 0, 0, 34, 0, 0, 0]);
    expected.extend_from_slice(&[0xff; 8]);
    expected.extend_from_slice(&[0; 4]);
    assert_eq!(response, expected);
}

#[test]
fn first_covering_region_decides() {
    let errnos = Errnos::host();
    let region = |guest_phys_addr, host_virt_addr, len, shared| CooperationRegion {
        guest_phys_addr,
        host_virt_addr,
        len,
        shared,
    };
    let regions = [
        region(0x1000, 0x10_0000, 0x2800, false),
        region(0x2000, 0x20_0000, 0x2000, true),
        region(0x3000, 0x30_0000, 0x2000, false),
        region(0x8000, u64::MAX - 0x1000, 0x4000, false),
    ];
    let decide = |pfn| evict_one_pfn(&errnos, &regions, pfn);
    assert_eq!(decide(0), PageDecision::Settled(libc::ERANGE));
    assert_eq!(decide(1), PageDecision::Advise(0x10_0000));
    assert_eq!(decide(2), PageDecision::Advise(0x10_1000));
    // The first region ends within this page.
    assert_eq!(decide(3), PageDecision::Settled(libc::EOPNOTSUPP));
    assert_eq!(decide(4), PageDecision::Advise(0x30_1000));
    assert_eq!(decide(5), PageDecision::Settled(libc::ERANGE));
    assert_eq!(decide(9), PageDecision::Advise(u64::MAX - 0x1000 + 0x1000));
    assert_eq!(decide(10), PageDecision::Settled(libc::ERANGE));
    assert_eq!(decide(u64::MAX / COOP_PAGE_SIZE), PageDecision::Settled(libc::ERANGE));
}

#[test]
fn advice_gives_zero_or_a_positive_number() {
    let errnos = Errnos::host();
    assert_eq!(advice_result(&errnos, Ok(())), 0);
    assert_eq!(advice_result(&errnos, Err(libc::ENOMEM)), libc::ENOMEM);
    assert_eq!(advice_result(&errnos, Err(0)), libc::EIO);
    assert_eq!(advice_result(&errnos, Err(-7)), libc::EIO);
}

#[test]
fn madvise_failure_keeps_the_platform_error() {
    let errnos = Errnos::host();
    assert_eq!(madvise_outcome(&errnos, 0, Some(libc::EINVAL)), Ok(()));
    assert_eq!(
        madvise_outcome(&errnos, -1, Some(libc::EINVAL)),
        Err(libc::EINVAL)
    );
    assert_eq!(madvise_outcome(&errnos, -1, None), Err(libc::EIO));
}

#[test]
fn errnos_are_those_of_the_platform() {
    assert_eq!(
        Errnos::host(),
        Errnos {
            e2big: libc::E2BIG,
            eio: libc::EIO,
            eopnotsupp: libc::EOPNOTSUPP,
            eproto: libc::EPROTO,
            eprotonosupport: libc::EPROTONOSUPPORT,
            erange: libc::ERANGE,
        }
    );
}
