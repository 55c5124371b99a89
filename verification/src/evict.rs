//! EVICT frames: what a request asks for, what is done about each page, and the response.

use vstd::prelude::*;

use crate::errno::Errnos;
use crate::wire::{
    get_u16, get_u32, get_u64, i32_le, put_i32, put_u16, put_u32, put_u64, u16_at, u16_le, u32_at,
    u32_le, u64_at, u64_le,
};

verus! {

/// Opcode of an EVICT request.
pub const COOP_OP_EVICT: u8 = 0x01;

/// Opcode of the response to an EVICT request.
pub const COOP_OP_EVICT_RESULT: u8 = 0x81;

/// Version of the frames in either direction.
pub const COOP_FRAME_VERSION: u8 = 0x02;

/// Length of the header of a request.
pub const COOP_EVICT_REQUEST_HEADER_BYTES: usize = 16;

/// Length of the header of a response.
pub const COOP_EVICT_RESPONSE_HEADER_BYTES: usize = 20;

/// Length of the record that a response holds for one page.
pub const COOP_EVICT_RESULT_BYTES: usize = 12;

/// Length of a page-frame number in a request.
pub const COOP_PFN_BYTES: usize = 8;

/// The most page-frame numbers that one request may carry.
pub const COOP_MAX_EVICT_PFNS: u32 = 65_536;

/// Length of a page.
pub const COOP_PAGE_SIZE: u64 = 4096;

/// One guest-memory region, for translating page-frame numbers to host virtual addresses.
#[derive(Clone, Copy, Debug, PartialEq, Eq, Structural)]
pub struct CooperationRegion {
    pub guest_phys_addr: u64,
    pub host_virt_addr: u64,
    pub len: u64,
    /// True when the region is mapped `MAP_SHARED`: its pages cannot be evicted.
    pub shared: bool,
}

/// What is to be done about one page-frame number.
#[derive(Clone, Copy, Debug, PartialEq, Eq, Structural)]
pub enum PageDecision {
    /// Nothing: the result is this error number.
    Settled(i32),
    /// The page at this host virtual address is to be dropped with `MADV_DONTNEED`.
    Advise(u64),
}

/// Whether the whole page `pfn` lies inside `region`. A region that ends beyond the address space
/// covers nothing.
pub open spec fn covers(region: CooperationRegion, pfn: u64) -> bool {
    &&& region.guest_phys_addr <= pfn * COOP_PAGE_SIZE
    &&& pfn * COOP_PAGE_SIZE + COOP_PAGE_SIZE <= region.guest_phys_addr + region.len
    &&& region.guest_phys_addr + region.len <= u64::MAX
}

/// The first of `regions` that covers the page `pfn`.
pub open spec fn covering(regions: Seq<CooperationRegion>, pfn: u64) -> Option<CooperationRegion>
    decreases regions.len(),
{
    if regions.len() == 0 {
        None
    } else if covers(regions[0], pfn) {
        Some(regions[0])
    } else {
        covering(regions.drop_first(), pfn)
    }
}

/// Where the page `pfn`, which `region` covers, is mapped in the host.
pub open spec fn host_address(region: CooperationRegion, pfn: u64) -> int {
    region.host_virt_addr + (pfn * COOP_PAGE_SIZE - region.guest_phys_addr)
}

/// What is to be done about the page `pfn`: a page of no region is out of range, and so is one
/// whose host address does not exist; a page of a shared region cannot be evicted.
pub open spec fn page_decision(
    errnos: Errnos,
    regions: Seq<CooperationRegion>,
    pfn: u64,
) -> PageDecision {
    match covering(regions, pfn) {
        None => PageDecision::Settled(errnos.erange),
        Some(region) => if region.shared {
            PageDecision::Settled(errnos.eopnotsupp)
        } else if host_address(region, pfn) > u64::MAX {
            PageDecision::Settled(errnos.erange)
        } else {
            PageDecision::Advise(host_address(region, pfn) as u64)
        },
    }
}

/// Decides what to do about one page-frame number.
pub fn evict_one_pfn(errnos: &Errnos, regions: &[CooperationRegion], pfn: u64) -> (decision:
    PageDecision)
    ensures
        decision == page_decision(*errnos, regions@, pfn),
{
    let gpa: u64 = match pfn.checked_mul(COOP_PAGE_SIZE) {
        Some(gpa) => gpa,
        None => {
            proof {
                lemma_uncovered(regions@, pfn);
            }
            return PageDecision::Settled(errnos.erange);
        },
    };
    let gpa_end: u64 = match gpa.checked_add(COOP_PAGE_SIZE) {
        Some(gpa_end) => gpa_end,
        None => {
            proof {
                lemma_uncovered(regions@, pfn);
            }
            return PageDecision::Settled(errnos.erange);
        },
    };
    let mut i: usize = 0;
    assert(regions@.skip(0) =~= regions@);
    while i < regions.len()
        invariant
            i <= regions@.len(),
            gpa == pfn * COOP_PAGE_SIZE,
            gpa_end == gpa + COOP_PAGE_SIZE,
            covering(regions@, pfn) == covering(regions@.skip(i as int), pfn),
        decreases regions@.len() - i,
    {
        let region = regions[i];
        proof {
            assert(regions@.skip(i as int)[0] == region);
            assert(regions@.skip(i as int).drop_first() =~= regions@.skip(i + 1));
        }
        i = i + 1;
        let region_end: u64 = match region.guest_phys_addr.checked_add(region.len) {
            Some(region_end) => region_end,
            None => {
                continue ;
            },
        };
        if gpa < region.guest_phys_addr || gpa_end > region_end {
            continue ;
        }
        if region.shared {
            return PageDecision::Settled(errnos.eopnotsupp);
        }
        return match region.host_virt_addr.checked_add(gpa - region.guest_phys_addr) {
            Some(host_va) => PageDecision::Advise(host_va),
            None => PageDecision::Settled(errnos.erange),
        };
    }
    PageDecision::Settled(errnos.erange)
}

/// No region covers a page that ends beyond the address space.
proof fn lemma_uncovered(regions: Seq<CooperationRegion>, pfn: u64)
    requires
        pfn * COOP_PAGE_SIZE + COOP_PAGE_SIZE > u64::MAX,
    ensures
        covering(regions, pfn) is None,
    decreases regions.len(),
{
    if regions.len() > 0 {
        lemma_uncovered(regions.drop_first(), pfn);
    }
}

/// The error number that stands in a response for what came of dropping a page: zero for success,
/// and otherwise a positive number.
pub open spec fn advice_errno(errnos: Errnos, outcome: Result<(), i32>) -> i32 {
    match outcome {
        Ok(()) => 0,
        Err(errno) => if errno > 0 {
            errno
        } else {
            errnos.eio
        },
    }
}

/// Turns what came of dropping a page into the error number for the response.
pub fn advice_result(errnos: &Errnos, outcome: Result<(), i32>) -> (errno: i32)
    ensures
        errno == advice_errno(*errnos, outcome),
{
    match outcome {
        Ok(()) => 0,
        Err(errno) => if errno > 0 {
            errno
        } else {
            errnos.eio
        },
    }
}

/// Interprets what `madvise(2)` returned and the error number that the platform left behind, if
/// it left one.
pub fn madvise_outcome(errnos: &Errnos, returned: i32, os_errno: Option<i32>) -> (outcome: Result<
    (),
    i32,
>)
    ensures
        outcome == (if returned == 0 {
            Ok::<(), i32>(())
        } else {
            match os_errno {
                Some(errno) => Err(errno),
                None => Err(errnos.eio),
            }
        }),
{
    if returned == 0 {
        Ok(())
    } else {
        match os_errno {
            Some(errno) => Err(errno),
            None => Err(errnos.eio),
        }
    }
}

/// The header of a request.
#[derive(Clone, Copy, Debug, PartialEq, Eq, Structural)]
pub struct EvictHeader {
    pub op: u8,
    pub version: u8,
    pub reserved: u16,
    pub sequence: u64,
    pub count: u32,
}

/// The header that the first bytes of a request stand for.
pub open spec fn header_of(bytes: Seq<u8>) -> EvictHeader {
    EvictHeader {
        op: bytes[0],
        version: bytes[1],
        reserved: u16_at(bytes, 2),
        sequence: u64_at(bytes, 4),
        count: u32_at(bytes, 12),
    }
}

/// The error that refuses a request, if one does. Of several faults the first in this order
/// counts: the opcode, the version, the reserved bits or the sequence number, the count.
pub open spec fn header_fault(
    errnos: Errnos,
    header: EvictHeader,
    expected_sequence: u64,
) -> Option<i32> {
    if header.op != COOP_OP_EVICT {
        Some(errnos.eopnotsupp)
    } else if header.version != COOP_FRAME_VERSION {
        Some(errnos.eprotonosupport)
    } else if header.reserved != 0 || header.sequence != expected_sequence {
        Some(errnos.eproto)
    } else if header.count > COOP_MAX_EVICT_PFNS {
        Some(errnos.e2big)
    } else {
        None
    }
}

impl EvictHeader {
    /// Reads the header of a request.
    pub fn decode(bytes: &[u8; COOP_EVICT_REQUEST_HEADER_BYTES]) -> (header: EvictHeader)
        ensures
            header == header_of(bytes@),
    {
        let slice = bytes.as_slice();
        EvictHeader {
            op: slice[0],
            version: slice[1],
            reserved: get_u16(slice, 2),
            sequence: get_u64(slice, 4),
            count: get_u32(slice, 12),
        }
    }

    /// The error that refuses a request with this header, if one does.
    pub fn fault(&self, errnos: &Errnos, expected_sequence: u64) -> (fault: Option<i32>)
        ensures
            fault == header_fault(*errnos, *self, expected_sequence),
    {
        if self.op != COOP_OP_EVICT {
            Some(errnos.eopnotsupp)
        } else if self.version != COOP_FRAME_VERSION {
            Some(errnos.eprotonosupport)
        } else if self.reserved != 0 || self.sequence != expected_sequence {
            Some(errnos.eproto)
        } else if self.count > COOP_MAX_EVICT_PFNS {
            Some(errnos.e2big)
        } else {
            None
        }
    }
}

/// The page-frame numbers in the body of a request.
pub open spec fn pfns_of(body: Seq<u8>) -> Seq<u64> {
    Seq::new(body.len() / COOP_PFN_BYTES as nat, |i: int| u64_at(body, i * COOP_PFN_BYTES))
}

/// Reads the page-frame numbers in the body of a request. Bytes at the end that make no whole
/// number are left out.
pub fn decode_pfns(body: &[u8]) -> (pfns: Vec<u64>)
    ensures
        pfns@ == pfns_of(body@),
{
    let count: usize = body.len() / COOP_PFN_BYTES;
    let mut pfns: Vec<u64> = Vec::with_capacity(count);
    let mut i: usize = 0;
    while i < count
        invariant
            count == body@.len() / COOP_PFN_BYTES as nat,
            body@.len() <= usize::MAX,
            i <= count,
            pfns@ == pfns_of(body@).take(i as int),
        decreases count - i,
    {
        pfns.push(get_u64(body, i * COOP_PFN_BYTES));
        i = i + 1;
        assert(pfns@ =~= pfns_of(body@).take(i as int));
    }
    assert(pfns_of(body@).take(count as int) =~= pfns_of(body@));
    pfns
}

/// The record of one page in a response: its page-frame number and the error number.
pub open spec fn result_record(result: (u64, i32)) -> Seq<u8> {
    u64_le(result.0) + i32_le(result.1)
}

/// The records of several pages, one after another.
pub open spec fn result_records(results: Seq<(u64, i32)>) -> Seq<u8>
    decreases results.len(),
{
    if results.len() == 0 {
        Seq::empty()
    } else {
        result_records(results.drop_last()) + result_record(results.last())
    }
}

/// The header of a response.
pub open spec fn response_header(sequence: u64, frame_errno: i32, count: u32) -> Seq<u8> {
    seq![COOP_OP_EVICT_RESULT, COOP_FRAME_VERSION] + u16_le(0) + u64_le(sequence) + i32_le(
        frame_errno,
    ) + u32_le(count)
}

/// A response: its header and the records of the pages.
pub open spec fn response_bytes(
    sequence: u64,
    frame_errno: i32,
    results: Seq<(u64, i32)>,
) -> Seq<u8> {
    response_header(sequence, frame_errno, results.len() as u32) + result_records(results)
}

/// Encodes a response.
pub fn encode_evict_response(
    sequence: u64,
    frame_errno: i32,
    results: &[(u64, i32)],
) -> (response: Vec<u8>)
    requires
        results@.len() <= u32::MAX,
    ensures
        response@ == response_bytes(sequence, frame_errno, results@),
{
    let mut response: Vec<u8> = Vec::new();
    response.push(COOP_OP_EVICT_RESULT);
    response.push(COOP_FRAME_VERSION);
    put_u16(&mut response, 0);
    put_u64(&mut response, sequence);
    put_i32(&mut response, frame_errno);
    put_u32(&mut response, results.len() as u32);
    let ghost header = response_header(sequence, frame_errno, results@.len() as u32);
    assert(response@ =~= header);
    let mut i: usize = 0;
    assert(results@.take(0) =~= Seq::empty());
    while i < results.len()
        invariant
            i <= results@.len(),
            response@ == header + result_records(results@.take(i as int)),
        decreases results@.len() - i,
    {
        let (pfn, errno) = results[i];
        put_u64(&mut response, pfn);
        put_i32(&mut response, errno);
        i = i + 1;
        proof {
            assert(results@.take(i as int).drop_last() =~= results@.take(i - 1));
            assert(results@.take(i as int).last() == (pfn, errno));
            assert(response@ =~= header + result_records(results@.take(i as int)));
        }
    }
    assert(results@.take(i as int) =~= results@);
    response
}

} // verus!
