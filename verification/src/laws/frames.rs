//! The bytes of the frames.

use vstd::arithmetic::div_mod::{
    lemma_div_denominator, lemma_hoist_over_denominator, lemma_mod_multiples_vanish,
};
use vstd::prelude::*;

use crate::conversation::{pfn_bytes, request_bytes, request_header};
use crate::errno::Errnos;
use crate::evict::{
    header_fault, header_of, pfns_of, response_bytes, response_header, result_record,
    result_records, EvictHeader,
};
use crate::metadata::payload_of;
use crate::wire::{i32_at, i32_bits, i32_le, u16_at, u16_le, u32_at, u32_le, u64_at, u64_le};

verus! {

/// Byte `k` of the encoding of a `u16` is the digit of its value at place `256^k`.
pub proof fn law_u16_bytes_are_its_digits(value: u16)
    ensures
        u16_le(value).len() == 2,
        u16_le(value)[0] == value % 256,
        u16_le(value)[1] == value / 256 % 256,
{
}

/// Byte `k` of the encoding of a `u32` is the digit of its value at place `256^k`.
pub proof fn law_u32_bytes_are_its_digits(value: u32)
    ensures
        u32_le(value).len() == 4,
        u32_le(value)[0] == value % 256,
        u32_le(value)[1] == value / 256 % 256,
        u32_le(value)[2] == value / 65_536 % 256,
        u32_le(value)[3] == value / 16_777_216 % 256,
{
}

/// Byte `k` of the encoding of a `u64` is the digit of its value at place `256^k`.
pub proof fn law_u64_bytes_are_its_digits(value: u64)
    ensures
        u64_le(value).len() == 8,
        u64_le(value)[0] == value % 256,
        u64_le(value)[1] == value / 256 % 256,
        u64_le(value)[2] == value / 65_536 % 256,
        u64_le(value)[3] == value / 16_777_216 % 256,
        u64_le(value)[4] == value / 4_294_967_296 % 256,
        u64_le(value)[5] == value / 1_099_511_627_776 % 256,
        u64_le(value)[6] == value / 281_474_976_710_656 % 256,
        u64_le(value)[7] == value / 72_057_594_037_927_936 % 256,
{
    let low = (value % 4_294_967_296) as u32;
    let high = (value / 4_294_967_296) as u32;
    lemma_digits_of_remainder(value as nat);
    law_u32_bytes_are_its_digits(low);
    law_u32_bytes_are_its_digits(high);
    assert(forall|k: int| 0 <= k < 4 ==> u64_le(value)[k] == #[trigger] u32_le(low)[k]);
    assert(forall|k: int| 0 <= k < 4 ==> u64_le(value)[4 + k] == #[trigger] u32_le(high)[k]);
    lemma_div_denominator(value as int, 4_294_967_296, 256);
    lemma_div_denominator(value as int, 4_294_967_296, 65_536);
    lemma_div_denominator(value as int, 4_294_967_296, 16_777_216);
}

/// The four lowest digits of a number are those of its remainder.
proof fn lemma_digits_of_remainder(value: nat)
    ensures
        value % 4_294_967_296 % 256 == value % 256,
        value % 4_294_967_296 / 256 % 256 == value / 256 % 256,
        value % 4_294_967_296 / 65_536 % 256 == value / 65_536 % 256,
        value % 4_294_967_296 / 16_777_216 % 256 == value / 16_777_216 % 256,
{
    let rest = (value % 4_294_967_296) as int;
    let times = (value / 4_294_967_296) as int;
    assert(value == 4_294_967_296 * times + rest);
    assert(rest % 256 == value % 256) by {
        lemma_mod_multiples_vanish(16_777_216 * times, rest, 256);
    }
    assert(rest / 256 % 256 == value / 256 % 256) by {
        lemma_hoist_over_denominator(rest, 16_777_216 * times, 256);
        lemma_mod_multiples_vanish(65_536 * times, rest / 256, 256);
    }
    assert(rest / 65_536 % 256 == value / 65_536 % 256) by {
        lemma_hoist_over_denominator(rest, 65_536 * times, 65_536);
        lemma_mod_multiples_vanish(256 * times, rest / 65_536, 256);
    }
    assert(rest / 16_777_216 % 256 == value / 16_777_216 % 256) by {
        lemma_hoist_over_denominator(rest, 256 * times, 16_777_216);
        lemma_mod_multiples_vanish(times, rest / 16_777_216, 256);
    }
}

/// The bytes of an `i32` are the digits of its value, or for a negative one, of its value and
/// `256^4`.
pub proof fn law_i32_bytes_are_its_digits(value: i32)
    ensures
        ({
            let bits: int = if value < 0 {
                value + 4_294_967_296
            } else {
                value as int
            };
            &&& i32_bits(value) == bits
            &&& i32_le(value).len() == 4
            &&& i32_le(value)[0] == bits % 256
            &&& i32_le(value)[1] == bits / 256 % 256
            &&& i32_le(value)[2] == bits / 65_536 % 256
            &&& i32_le(value)[3] == bits / 16_777_216 % 256
        }),
{
}

/// The number that two bytes stand for is the sum of each times its place.
pub proof fn law_u16_is_the_sum_of_its_bytes(bytes: Seq<u8>, at: int)
    requires
        0 <= at,
        at + 2 <= bytes.len(),
    ensures
        u16_at(bytes, at) == bytes[at] + 256 * bytes[at + 1],
{
}

/// The number that four bytes stand for is the sum of each times its place.
pub proof fn law_u32_is_the_sum_of_its_bytes(bytes: Seq<u8>, at: int)
    requires
        0 <= at,
        at + 4 <= bytes.len(),
    ensures
        u32_at(bytes, at) == bytes[at] + 256 * bytes[at + 1] + 65_536 * bytes[at + 2] + 16_777_216
            * bytes[at + 3],
{
}

/// The number that eight bytes stand for is the sum of each times its place.
pub proof fn law_u64_is_the_sum_of_its_bytes(bytes: Seq<u8>, at: int)
    requires
        0 <= at,
        at + 8 <= bytes.len(),
    ensures
        u64_at(bytes, at) == bytes[at] + 256 * bytes[at + 1] + 65_536 * bytes[at + 2] + 16_777_216
            * bytes[at + 3] + 4_294_967_296 * bytes[at + 4] + 1_099_511_627_776 * bytes[at + 5]
            + 281_474_976_710_656 * bytes[at + 6] + 72_057_594_037_927_936 * bytes[at + 7],
{
}

/// The number that four bytes of a two's complement stand for is the sum of each times its place,
/// less `256^4` where the last has its highest bit.
pub proof fn law_i32_is_the_sum_of_its_bytes(bytes: Seq<u8>, at: int)
    requires
        0 <= at,
        at + 4 <= bytes.len(),
    ensures
        i32_at(bytes, at) == bytes[at] + 256 * bytes[at + 1] + 65_536 * bytes[at + 2] + 16_777_216
            * bytes[at + 3] - (if bytes[at + 3] >= 128 {
            4_294_967_296int
        } else {
            0
        }),
{
}

/// The fields of a request's header stand where the protocol has them: the opcode, the version, two
/// reserved bytes, eight of sequence number and four of count, each least significant byte first.
pub proof fn law_header_fields_are_at_their_places(bytes: Seq<u8>)
    requires
        bytes.len() >= 16,
    ensures
        header_of(bytes).op == bytes[0],
        header_of(bytes).version == bytes[1],
        header_of(bytes).reserved == bytes[2] + 256 * bytes[3],
        header_of(bytes).sequence == bytes[4] + 256 * bytes[5] + 65_536 * bytes[6] + 16_777_216
            * bytes[7] + 4_294_967_296 * bytes[8] + 1_099_511_627_776 * bytes[9]
            + 281_474_976_710_656 * bytes[10] + 72_057_594_037_927_936 * bytes[11],
        header_of(bytes).count == bytes[12] + 256 * bytes[13] + 65_536 * bytes[14] + 16_777_216
            * bytes[15],
{
}

/// A header is not at fault exactly if it has opcode 1, version 2, nothing reserved, the expected
/// sequence number, and a count of at most 65536. Otherwise the first of these that it misses tells
/// the error.
pub proof fn law_header_is_refused_for_its_first_fault(
    errnos: Errnos,
    header: EvictHeader,
    expected_sequence: u64,
)
    ensures
        ({
            let fault = header_fault(errnos, header, expected_sequence);
            let op = header.op == 1;
            let version = header.version == 2;
            let reserved = header.reserved == 0;
            let sequence = header.sequence == expected_sequence;
            let count = header.count <= 65_536;
            &&& fault is None <==> op && version && reserved && sequence && count
            &&& !op ==> fault == Some(errnos.eopnotsupp)
            &&& op && !version ==> fault == Some(errnos.eprotonosupport)
            &&& op && version && !(reserved && sequence) ==> fault == Some(errnos.eproto)
            &&& op && version && reserved && sequence && !count ==> fault == Some(errnos.e2big)
        }),
{
}

/// Page-frame number `i` of a body is what its eight bytes from `8 * i` on stand for, least
/// significant byte first, and there is one for every eight bytes.
pub proof fn law_body_holds_one_number_in_eight_bytes(body: Seq<u8>)
    ensures
        pfns_of(body).len() == body.len() / 8,
        forall|i: int|
            0 <= i < pfns_of(body).len() ==> (#[trigger] pfns_of(body)[i]) == body[8 * i] + 256
                * body[8 * i + 1] + 65_536 * body[8 * i + 2] + 16_777_216 * body[8 * i + 3]
                + 4_294_967_296 * body[8 * i + 4] + 1_099_511_627_776 * body[8 * i + 5]
                + 281_474_976_710_656 * body[8 * i + 6] + 72_057_594_037_927_936 * body[8 * i + 7],
{
    assert forall|i: int| 0 <= i < pfns_of(body).len() implies (#[trigger] pfns_of(body)[i])
        == body[8 * i] + 256 * body[8 * i + 1] + 65_536 * body[8 * i + 2] + 16_777_216 * body[8 * i
        + 3] + 4_294_967_296 * body[8 * i + 4] + 1_099_511_627_776 * body[8 * i + 5]
        + 281_474_976_710_656 * body[8 * i + 6] + 72_057_594_037_927_936 * body[8 * i + 7] by {
        law_u64_is_the_sum_of_its_bytes(body, 8 * i);
    }
}

/// A response has a header of twenty bytes: the opcode 0x81, the version 2, two zero bytes, eight
/// of sequence number, four of the frame's error and four of the number of results, each least
/// significant byte first; and twelve bytes for each result.
pub proof fn law_response_header_is_at_its_place(
    sequence: u64,
    frame_errno: i32,
    results: Seq<(u64, i32)>,
)
    requires
        results.len() <= u32::MAX,
    ensures
        ({
            let response = response_bytes(sequence, frame_errno, results);
            let error: int = if frame_errno < 0 {
                frame_errno + 4_294_967_296
            } else {
                frame_errno as int
            };
            let count = results.len();
            &&& response.len() == 20 + 12 * results.len()
            &&& response[0] == 0x81
            &&& response[1] == 2
            &&& response[2] == 0
            &&& response[3] == 0
            &&& response[4] == sequence % 256
            &&& response[5] == sequence / 256 % 256
            &&& response[6] == sequence / 65_536 % 256
            &&& response[7] == sequence / 16_777_216 % 256
            &&& response[8] == sequence / 4_294_967_296 % 256
            &&& response[9] == sequence / 1_099_511_627_776 % 256
            &&& response[10] == sequence / 281_474_976_710_656 % 256
            &&& response[11] == sequence / 72_057_594_037_927_936 % 256
            &&& response[12] == error % 256
            &&& response[13] == error / 256 % 256
            &&& response[14] == error / 65_536 % 256
            &&& response[15] == error / 16_777_216 % 256
            &&& response[16] == count % 256
            &&& response[17] == count / 256 % 256
            &&& response[18] == count / 65_536 % 256
            &&& response[19] == count / 16_777_216 % 256
        }),
{
    lemma_records_are_twelve_bytes_each(results);
    let header = response_header(sequence, frame_errno, results.len() as u32);
    law_u64_bytes_are_its_digits(sequence);
    law_i32_bytes_are_its_digits(frame_errno);
    law_u32_bytes_are_its_digits(results.len() as u32);
    assert(header.len() == 20);
    assert(header.subrange(4, 12) =~= u64_le(sequence));
    assert(header.subrange(12, 16) =~= i32_le(frame_errno));
    assert(header.subrange(16, 20) =~= u32_le(results.len() as u32));
    assert(forall|k: int| 0 <= k < 8 ==> #[trigger] u64_le(sequence)[k] == header[4 + k]);
    assert(forall|k: int| 0 <= k < 4 ==> #[trigger] i32_le(frame_errno)[k] == header[12 + k]);
    assert(forall|k: int|
        0 <= k < 4 ==> #[trigger] u32_le(results.len() as u32)[k] == header[16 + k]);
}

proof fn lemma_records_are_twelve_bytes_each(results: Seq<(u64, i32)>)
    ensures
        result_records(results).len() == 12 * results.len(),
        forall|i: int, k: int|
            0 <= i < results.len() && 0 <= k < 12 ==> result_records(results)[12 * i + k]
                == #[trigger] result_record(results[i])[k],
    decreases results.len(),
{
    if results.len() > 0 {
        let init = results.drop_last();
        lemma_records_are_twelve_bytes_each(init);
        assert forall|i: int, k: int| 0 <= i < results.len() && 0 <= k < 12 implies result_records(
            results,
        )[12 * i + k] == #[trigger] result_record(results[i])[k] by {
            if i < init.len() {
                assert(init[i] == results[i]);
                assert(result_records(init)[12 * i + k] == result_record(init[i])[k]);
            }
        }
    }
}

/// Result `i` of a response stands in the twelve bytes from `20 + 12 * i` on: eight of page-frame
/// number and four of error number, each least significant byte first.
pub proof fn law_results_are_at_their_places(
    sequence: u64,
    frame_errno: i32,
    results: Seq<(u64, i32)>,
    i: int,
)
    requires
        results.len() <= u32::MAX,
        0 <= i < results.len(),
    ensures
        ({
            let response = response_bytes(sequence, frame_errno, results);
            let at = 20 + 12 * i;
            let pfn = results[i].0;
            let errno = results[i].1;
            let error: int = if errno < 0 {
                errno + 4_294_967_296
            } else {
                errno as int
            };
            &&& at + 12 <= response.len()
            &&& response[at] == pfn % 256
            &&& response[at + 1] == pfn / 256 % 256
            &&& response[at + 2] == pfn / 65_536 % 256
            &&& response[at + 3] == pfn / 16_777_216 % 256
            &&& response[at + 4] == pfn / 4_294_967_296 % 256
            &&& response[at + 5] == pfn / 1_099_511_627_776 % 256
            &&& response[at + 6] == pfn / 281_474_976_710_656 % 256
            &&& response[at + 7] == pfn / 72_057_594_037_927_936 % 256
            &&& response[at + 8] == error % 256
            &&& response[at + 9] == error / 256 % 256
            &&& response[at + 10] == error / 65_536 % 256
            &&& response[at + 11] == error / 16_777_216 % 256
        }),
{
    let response = response_bytes(sequence, frame_errno, results);
    let header = response_header(sequence, frame_errno, results.len() as u32);
    let record = result_record(results[i]);
    lemma_records_are_twelve_bytes_each(results);
    law_u64_bytes_are_its_digits(results[i].0);
    law_i32_bytes_are_its_digits(results[i].1);
    assert(header.len() == 20);
    assert forall|k: int| 0 <= k < 12 implies response[20 + 12 * i + k] == #[trigger] record[k] by {
        assert(response[20 + 12 * i + k] == result_records(results)[12 * i + k]);
    }
    assert(forall|k: int| 0 <= k < 8 ==> #[trigger] u64_le(results[i].0)[k] == record[k]);
    assert(forall|k: int| 0 <= k < 4 ==> #[trigger] i32_le(results[i].1)[k] == record[8 + k]);
}

/// A payload is the length of the document in four bytes, least significant first, and then the
/// bytes of the document. Of a longer length its remainder is sent.
pub proof fn law_payload_is_length_and_document(document: Seq<u8>)
    ensures
        payload_of(document).len() == 4 + document.len(),
        payload_of(document)[0] == document.len() % 256,
        payload_of(document)[1] == document.len() / 256 % 256,
        payload_of(document)[2] == document.len() / 65_536 % 256,
        payload_of(document)[3] == document.len() / 16_777_216 % 256,
        forall|i: int|
            0 <= i < document.len() ==> #[trigger] payload_of(document)[4 + i] == document[i],
{
    let length = (document.len() % 4_294_967_296) as u32;
    lemma_digits_of_remainder(document.len());
    law_u32_bytes_are_its_digits(length);
    assert(forall|k: int| 0 <= k < 4 ==> payload_of(document)[k] == #[trigger] u32_le(length)[k]);
}

/// A request, as a peer writes it, has opcode 1, version 2, two zero bytes, eight of sequence
/// number and four of count, and then eight bytes for each page-frame number, each least
/// significant byte first.
pub proof fn law_request_is_at_its_place(sequence: u64, pfns: Seq<u64>)
    requires
        pfns.len() <= u32::MAX,
    ensures
        ({
            let request = request_bytes(sequence, pfns);
            let count = pfns.len();
            &&& request.len() == 16 + 8 * pfns.len()
            &&& request[0] == 1
            &&& request[1] == 2
            &&& request[2] == 0
            &&& request[3] == 0
            &&& request[4] == sequence % 256
            &&& request[5] == sequence / 256 % 256
            &&& request[6] == sequence / 65_536 % 256
            &&& request[7] == sequence / 16_777_216 % 256
            &&& request[8] == sequence / 4_294_967_296 % 256
            &&& request[9] == sequence / 1_099_511_627_776 % 256
            &&& request[10] == sequence / 281_474_976_710_656 % 256
            &&& request[11] == sequence / 72_057_594_037_927_936 % 256
            &&& request[12] == count % 256
            &&& request[13] == count / 256 % 256
            &&& request[14] == count / 65_536 % 256
            &&& request[15] == count / 16_777_216 % 256
            &&& forall|i: int|
                #![trigger pfns[i]]
                0 <= i < pfns.len() ==> {
                    &&& request[16 + 8 * i] == pfns[i] % 256
                    &&& request[16 + 8 * i + 1] == pfns[i] / 256 % 256
                    &&& request[16 + 8 * i + 2] == pfns[i] / 65_536 % 256
                    &&& request[16 + 8 * i + 3] == pfns[i] / 16_777_216 % 256
                    &&& request[16 + 8 * i + 4] == pfns[i] / 4_294_967_296 % 256
                    &&& request[16 + 8 * i + 5] == pfns[i] / 1_099_511_627_776 % 256
                    &&& request[16 + 8 * i + 6] == pfns[i] / 281_474_976_710_656 % 256
                    &&& request[16 + 8 * i + 7] == pfns[i] / 72_057_594_037_927_936 % 256
                }
        }),
{
    reveal(request_header);
    let request = request_bytes(sequence, pfns);
    let body = pfn_bytes(pfns);
    lemma_numbers_are_eight_bytes_each(pfns);
    law_u64_bytes_are_its_digits(sequence);
    law_u32_bytes_are_its_digits(pfns.len() as u32);
    assert(request.subrange(4, 12) =~= u64_le(sequence));
    assert(request.subrange(12, 16) =~= u32_le(pfns.len() as u32));
    assert(forall|k: int| 0 <= k < 8 ==> #[trigger] u64_le(sequence)[k] == request[4 + k]);
    assert(forall|k: int|
        0 <= k < 4 ==> #[trigger] u32_le(pfns.len() as u32)[k] == request[12 + k]);
    assert forall|i: int|
        #![trigger pfns[i]]
        0 <= i < pfns.len() implies {
        &&& request[16 + 8 * i] == pfns[i] % 256
        &&& request[16 + 8 * i + 1] == pfns[i] / 256 % 256
        &&& request[16 + 8 * i + 2] == pfns[i] / 65_536 % 256
        &&& request[16 + 8 * i + 3] == pfns[i] / 16_777_216 % 256
        &&& request[16 + 8 * i + 4] == pfns[i] / 4_294_967_296 % 256
        &&& request[16 + 8 * i + 5] == pfns[i] / 1_099_511_627_776 % 256
        &&& request[16 + 8 * i + 6] == pfns[i] / 281_474_976_710_656 % 256
        &&& request[16 + 8 * i + 7] == pfns[i] / 72_057_594_037_927_936 % 256
    } by {
        law_u64_bytes_are_its_digits(pfns[i]);
        let number = u64_le(pfns[i]);
        assert forall|k: int| 0 <= k < 8 implies request[16 + 8 * i + k]
            == #[trigger] number[k] by {
            assert(request[16 + 8 * i + k] == body[8 * i + k]);
            assert(body[8 * i + k] == u64_le(pfns[i])[k]);
        }
        assert(number[0] == request[16 + 8 * i + 0]);
    }
}

proof fn lemma_numbers_are_eight_bytes_each(pfns: Seq<u64>)
    ensures
        pfn_bytes(pfns).len() == 8 * pfns.len(),
        forall|i: int, k: int|
            0 <= i < pfns.len() && 0 <= k < 8 ==> pfn_bytes(pfns)[8 * i + k] == #[trigger] u64_le(
                pfns[i],
            )[k],
    decreases pfns.len(),
{
    if pfns.len() > 0 {
        let init = pfns.drop_last();
        lemma_numbers_are_eight_bytes_each(init);
        assert forall|i: int, k: int| 0 <= i < pfns.len() && 0 <= k < 8 implies pfn_bytes(pfns)[8
            * i + k] == #[trigger] u64_le(pfns[i])[k] by {
            if i < init.len() {
                assert(init[i] == pfns[i]);
                assert(pfn_bytes(init)[8 * i + k] == u64_le(init[i])[k]);
            }
        }
    }
}

} // verus!
