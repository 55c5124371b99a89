//! What the operations return for what they are given.
//!
//! Each law is about the result of one call, whatever the call is given.

use vstd::prelude::*;

use crate::errno::Errnos;
use crate::evict::{
    advice_result, decode_pfns, encode_evict_response, evict_one_pfn, madvise_outcome,
    CooperationRegion, EvictHeader, PageDecision, COOP_EVICT_REQUEST_HEADER_BYTES,
};
use crate::laws::frames::{
    law_body_holds_one_number_in_eight_bytes, law_header_fields_are_at_their_places,
    law_header_is_refused_for_its_first_fault, law_payload_is_length_and_document,
    law_response_header_is_at_its_place, law_results_are_at_their_places,
};
use crate::laws::handoffs::law_metadata_have_every_field_of_every_region;
use crate::laws::pages::{
    law_page_inside_a_region_is_dropped_at_its_place, law_page_of_a_private_region_is_dropped,
    law_page_outside_every_region_is_out_of_range,
};
use crate::metadata::{
    cooperation_regions, describe_handoff, frame_document, UffdHandoffMetadata,
    UffdHandoffRegionSource,
};

verus! {

/// `EvictHeader::decode` takes the opcode from the first byte, the version from the second, the
/// reserved bits from the next two, the sequence number from the next eight and the count from the
/// last four, each least significant byte first.
pub proof fn law_decode_reads_each_field(
    bytes: &[u8; COOP_EVICT_REQUEST_HEADER_BYTES],
    header: EvictHeader,
)
    requires
        call_ensures(EvictHeader::decode, (bytes,), header),
    ensures
        bytes@.len() == 16,
        header.op == bytes@[0],
        header.version == bytes@[1],
        header.reserved == bytes@[2] + 256 * bytes@[3],
        header.sequence == bytes@[4] + 256 * bytes@[5] + 65_536 * bytes@[6] + 16_777_216 * bytes@[7]
            + 4_294_967_296 * bytes@[8] + 1_099_511_627_776 * bytes@[9] + 281_474_976_710_656
            * bytes@[10] + 72_057_594_037_927_936 * bytes@[11],
        header.count == bytes@[12] + 256 * bytes@[13] + 65_536 * bytes@[14] + 16_777_216
            * bytes@[15],
{
    law_header_fields_are_at_their_places(bytes@);
}

/// `EvictHeader::fault` finds none exactly in a header with opcode 1, version 2, nothing reserved,
/// the expected sequence number and a count of at most 65536. Otherwise the first of these that is
/// missing tells the error.
pub proof fn law_fault_is_the_first(
    header: &EvictHeader,
    errnos: &Errnos,
    expected_sequence: u64,
    fault: Option<i32>,
)
    requires
        call_ensures(EvictHeader::fault, (header, errnos, expected_sequence), fault),
    ensures
        ({
            let op = header.op == 1;
            let version = header.version == 2;
            let in_order = header.reserved == 0 && header.sequence == expected_sequence;
            let count = header.count <= 65_536;
            &&& fault is None <==> op && version && in_order && count
            &&& !op ==> fault == Some(errnos.eopnotsupp)
            &&& op && !version ==> fault == Some(errnos.eprotonosupport)
            &&& op && version && !in_order ==> fault == Some(errnos.eproto)
            &&& op && version && in_order && !count ==> fault == Some(errnos.e2big)
        }),
{
    law_header_is_refused_for_its_first_fault(*errnos, *header, expected_sequence);
}

/// `decode_pfns` gives one number for every eight bytes: number `i` is the sum of the bytes from
/// `8 * i` on, each times its place, least significant byte first.
pub proof fn law_decoded_numbers_are_sums_of_their_bytes(body: &[u8], pfns: Vec<u64>)
    requires
        call_ensures(decode_pfns, (body,), pfns),
    ensures
        pfns@.len() == body@.len() / 8,
        forall|i: int|
            0 <= i < pfns@.len() ==> #[trigger] pfns@[i] == body@[8 * i] + 256 * body@[8 * i + 1]
                + 65_536 * body@[8 * i + 2] + 16_777_216 * body@[8 * i + 3] + 4_294_967_296
                * body@[8 * i + 4] + 1_099_511_627_776 * body@[8 * i + 5] + 281_474_976_710_656
                * body@[8 * i + 6] + 72_057_594_037_927_936 * body@[8 * i + 7],
{
    law_body_holds_one_number_in_eight_bytes(body@);
}

/// `encode_evict_response` gives twenty bytes of header and twelve for each result: the opcode
/// 0x81, the version 2, two zero bytes, the sequence number, the frame's error and the number of
/// results; then of result `i` its page-frame number and its error number. Each number has its
/// least significant byte first, and byte `k` of it is the number divided by `256^k`, modulo 256.
pub proof fn law_encoded_response_has_each_number_at_its_place(
    sequence: u64,
    frame_errno: i32,
    results: &[(u64, i32)],
    response: Vec<u8>,
)
    requires
        results@.len() <= u32::MAX,
        call_ensures(encode_evict_response, (sequence, frame_errno, results), response),
    ensures
        ({
            let error: int = if frame_errno < 0 {
                frame_errno + 4_294_967_296
            } else {
                frame_errno as int
            };
            let count = results@.len();
            &&& response@.len() == 20 + 12 * results@.len()
            &&& response@[0] == 0x81
            &&& response@[1] == 2
            &&& response@[2] == 0
            &&& response@[3] == 0
            &&& response@[4] == sequence % 256
            &&& response@[5] == sequence / 256 % 256
            &&& response@[6] == sequence / 65_536 % 256
            &&& response@[7] == sequence / 16_777_216 % 256
            &&& response@[8] == sequence / 4_294_967_296 % 256
            &&& response@[9] == sequence / 1_099_511_627_776 % 256
            &&& response@[10] == sequence / 281_474_976_710_656 % 256
            &&& response@[11] == sequence / 72_057_594_037_927_936 % 256
            &&& response@[12] == error % 256
            &&& response@[13] == error / 256 % 256
            &&& response@[14] == error / 65_536 % 256
            &&& response@[15] == error / 16_777_216 % 256
            &&& response@[16] == count % 256
            &&& response@[17] == count / 256 % 256
            &&& response@[18] == count / 65_536 % 256
            &&& response@[19] == count / 16_777_216 % 256
        }),
        forall|i: int|
            #![trigger results@[i]]
            0 <= i < results@.len() ==> {
                let at = 20 + 12 * i;
                let pfn = results@[i].0;
                let errno = results@[i].1;
                let error: int = if errno < 0 {
                    errno + 4_294_967_296
                } else {
                    errno as int
                };
                &&& response@[at] == pfn % 256
                &&& response@[at + 1] == pfn / 256 % 256
                &&& response@[at + 2] == pfn / 65_536 % 256
                &&& response@[at + 3] == pfn / 16_777_216 % 256
                &&& response@[at + 4] == pfn / 4_294_967_296 % 256
                &&& response@[at + 5] == pfn / 1_099_511_627_776 % 256
                &&& response@[at + 6] == pfn / 281_474_976_710_656 % 256
                &&& response@[at + 7] == pfn / 72_057_594_037_927_936 % 256
                &&& response@[at + 8] == error % 256
                &&& response@[at + 9] == error / 256 % 256
                &&& response@[at + 10] == error / 65_536 % 256
                &&& response@[at + 11] == error / 16_777_216 % 256
            },
{
    law_response_header_is_at_its_place(sequence, frame_errno, results@);
    assert forall|i: int|
        #![trigger results@[i]]
        0 <= i < results@.len() implies {
        let at = 20 + 12 * i;
        let pfn = results@[i].0;
        let errno = results@[i].1;
        let error: int = if errno < 0 {
            errno + 4_294_967_296
        } else {
            errno as int
        };
        &&& response@[at] == pfn % 256
        &&& response@[at + 1] == pfn / 256 % 256
        &&& response@[at + 2] == pfn / 65_536 % 256
        &&& response@[at + 3] == pfn / 16_777_216 % 256
        &&& response@[at + 4] == pfn / 4_294_967_296 % 256
        &&& response@[at + 5] == pfn / 1_099_511_627_776 % 256
        &&& response@[at + 6] == pfn / 281_474_976_710_656 % 256
        &&& response@[at + 7] == pfn / 72_057_594_037_927_936 % 256
        &&& response@[at + 8] == error % 256
        &&& response@[at + 9] == error / 256 % 256
        &&& response@[at + 10] == error / 65_536 % 256
        &&& response@[at + 11] == error / 16_777_216 % 256
    } by {
        law_results_are_at_their_places(sequence, frame_errno, results@, i);
    }
}

/// `advice_result` gives zero where the page was dropped, the platform's number where that is
/// positive, and that of an input/output error otherwise.
pub proof fn law_advice_result_tells_what_dropping_came_to(
    errnos: &Errnos,
    outcome: Result<(), i32>,
    result: i32,
)
    requires
        call_ensures(advice_result, (errnos, outcome), result),
    ensures
        outcome is Ok ==> result == 0,
        outcome matches Err(errno) ==> {
            &&& errno > 0 ==> result == errno
            &&& errno <= 0 ==> result == errnos.eio
        },
{
}

/// `madvise_outcome` is success exactly if `madvise(2)` returned zero. Otherwise the error is the
/// platform's, and that of an input/output error where it left none.
pub proof fn law_madvise_succeeds_with_zero(
    errnos: &Errnos,
    returned: i32,
    os_errno: Option<i32>,
    outcome: Result<(), i32>,
)
    requires
        call_ensures(madvise_outcome, (errnos, returned, os_errno), outcome),
    ensures
        outcome is Ok <==> returned == 0,
        outcome matches Err(errno) ==> {
            &&& os_errno is Some ==> errno == os_errno->Some_0
            &&& os_errno is None ==> errno == errnos.eio
        },
{
}

/// `evict_one_pfn` has a page dropped that lies whole inside a private region whose mapping ends
/// inside the address space, and that no region before it overlaps; and that at its place in the
/// mapping.
pub proof fn law_evict_drops_each_page_of_a_private_region(
    errnos: &Errnos,
    regions: &[CooperationRegion],
    pfn: u64,
    decision: PageDecision,
    i: int,
)
    requires
        call_ensures(evict_one_pfn, (errnos, regions, pfn), decision),
        0 <= i < regions@.len(),
        !regions@[i].shared,
        regions@[i].guest_phys_addr + regions@[i].len <= 0xffff_ffff_ffff_ffff,
        regions@[i].host_virt_addr + regions@[i].len <= 0xffff_ffff_ffff_ffff,
        regions@[i].guest_phys_addr <= pfn * 4096,
        pfn * 4096 + 4096 <= regions@[i].guest_phys_addr + regions@[i].len,
        forall|j: int|
            0 <= j < i ==> {
                ||| pfn * 4096 + 4096 <= (#[trigger] regions@[j]).guest_phys_addr
                ||| regions@[j].guest_phys_addr + regions@[j].len <= pfn * 4096
            },
    ensures
        decision matches PageDecision::Advise(host_va) && host_va == regions@[i].host_virt_addr
            + pfn * 4096 - regions@[i].guest_phys_addr,
{
    law_page_of_a_private_region_is_dropped(*errnos, regions@, pfn, i);
}

/// `evict_one_pfn` goes by the first region that the page lies in whole, if it ends inside the
/// guest's address space. Where that is shared, the operation is not supported; else the page is
/// dropped at its place in the mapping, or is out of range where that place does not exist.
pub proof fn law_evict_goes_by_the_first_region(
    errnos: &Errnos,
    regions: &[CooperationRegion],
    pfn: u64,
    decision: PageDecision,
    i: int,
)
    requires
        call_ensures(evict_one_pfn, (errnos, regions, pfn), decision),
        0 <= i < regions@.len(),
        regions@[i].guest_phys_addr + regions@[i].len <= 0xffff_ffff_ffff_ffff,
        regions@[i].guest_phys_addr <= pfn * 4096,
        pfn * 4096 + 4096 <= regions@[i].guest_phys_addr + regions@[i].len,
        forall|j: int|
            0 <= j < i ==> {
                ||| pfn * 4096 < (#[trigger] regions@[j]).guest_phys_addr
                ||| pfn * 4096 + 4096 > regions@[j].guest_phys_addr + regions@[j].len
                ||| regions@[j].guest_phys_addr + regions@[j].len > 0xffff_ffff_ffff_ffff
            },
    ensures
        ({
            let place = regions@[i].host_virt_addr + pfn * 4096 - regions@[i].guest_phys_addr;
            if regions@[i].shared {
                decision == PageDecision::Settled(errnos.eopnotsupp)
            } else if place <= 0xffff_ffff_ffff_ffff {
                decision matches PageDecision::Advise(host_va) && host_va == place
            } else {
                decision == PageDecision::Settled(errnos.erange)
            }
        }),
{
    law_page_inside_a_region_is_dropped_at_its_place(*errnos, regions@, pfn, i);
}

/// `evict_one_pfn` finds a page out of range that lies whole inside no region.
pub proof fn law_evict_finds_other_pages_out_of_range(
    errnos: &Errnos,
    regions: &[CooperationRegion],
    pfn: u64,
    decision: PageDecision,
)
    requires
        call_ensures(evict_one_pfn, (errnos, regions, pfn), decision),
        forall|j: int|
            0 <= j < regions@.len() ==> {
                ||| pfn * 4096 < (#[trigger] regions@[j]).guest_phys_addr
                ||| pfn * 4096 + 4096 > regions@[j].guest_phys_addr + regions@[j].len
                ||| regions@[j].guest_phys_addr + regions@[j].len > 0xffff_ffff_ffff_ffff
            },
    ensures
        decision == PageDecision::Settled(errnos.erange),
{
    law_page_outside_every_region_is_out_of_range(*errnos, regions@, pfn);
}

/// `describe_handoff` names the protocol and its version, the process and the capabilities, and has
/// one record for each region, in their order, with all of its fields.
pub proof fn law_description_has_every_field_of_every_region(
    regions: &[UffdHandoffRegionSource],
    pid: u32,
    user_mode_only: bool,
    registered_write_protect: bool,
    metadata: UffdHandoffMetadata,
)
    requires
        call_ensures(
            describe_handoff,
            (regions, pid, user_mode_only, registered_write_protect),
            metadata,
        ),
    ensures
        metadata.protocol@ == "meridian-cloud-hypervisor-uffd-handoff"@,
        metadata.version == 2,
        metadata.pid == pid,
        metadata.user_mode_only == user_mode_only,
        metadata.registered_write_protect == registered_write_protect,
        metadata.regions@.len() == regions@.len(),
        forall|i: int|
            0 <= i < regions@.len() ==> {
                let record = #[trigger] metadata.regions@[i];
                &&& record.guest_phys_addr == regions@[i].guest_phys_addr
                &&& record.len == regions@[i].len
                &&& record.host_virt_addr == regions@[i].host_virt_addr
                &&& record.file_offset == regions@[i].file_offset
                &&& record.backing_dev == regions@[i].backing_dev
                &&& record.backing_ino == regions@[i].backing_ino
                &&& record.shared == regions@[i].shared
            },
{
    law_metadata_have_every_field_of_every_region(
        metadata,
        regions@,
        pid,
        user_mode_only,
        registered_write_protect,
    );
}

/// `cooperation_regions` has one entry for each region, in their order, with its addresses, its
/// length and whether it is shared.
pub proof fn law_every_region_has_its_entry(
    regions: &[UffdHandoffRegionSource],
    maps: Vec<CooperationRegion>,
)
    requires
        call_ensures(cooperation_regions, (regions,), maps),
    ensures
        maps@.len() == regions@.len(),
        forall|i: int|
            0 <= i < regions@.len() ==> {
                &&& (#[trigger] maps@[i]).guest_phys_addr == regions@[i].guest_phys_addr
                &&& maps@[i].host_virt_addr == regions@[i].host_virt_addr
                &&& maps@[i].len == regions@[i].len
                &&& maps@[i].shared == regions@[i].shared
            },
{
}

/// `frame_document` puts the length of the document before it, in four bytes, least significant
/// first. Of a longer length its remainder is put there.
pub proof fn law_framed_document_follows_its_length(document: &[u8], payload: Vec<u8>)
    requires
        call_ensures(frame_document, (document,), payload),
    ensures
        payload@.len() == 4 + document@.len(),
        payload@[0] == document@.len() % 256,
        payload@[1] == document@.len() / 256 % 256,
        payload@[2] == document@.len() / 65_536 % 256,
        payload@[3] == document@.len() / 16_777_216 % 256,
        payload@.skip(4) == document@,
{
    law_payload_is_length_and_document(document@);
    assert(payload@.skip(4) =~= document@);
}

} // verus!
