//! How numbers are written in messages, and the numbers that the protocol fixes.

use vstd::prelude::*;

use crate::creation::{
    UFFDIO_API_REQUEST, UFFD_API_VALUE, UFFD_FEATURE_MINOR_SHMEM, UFFD_FEATURE_MISSING_SHMEM,
    UFFD_USER_MODE_ONLY,
};
use crate::evict::{
    COOP_EVICT_REQUEST_HEADER_BYTES, COOP_EVICT_RESPONSE_HEADER_BYTES, COOP_EVICT_RESULT_BYTES,
    COOP_FRAME_VERSION, COOP_MAX_EVICT_PFNS, COOP_OP_EVICT, COOP_OP_EVICT_RESULT, COOP_PAGE_SIZE,
    COOP_PFN_BYTES,
};
use crate::metadata::{UFFD_HANDOFF_ACK, UFFD_HANDOFF_PROTOCOL, UFFD_HANDOFF_VERSION};
use crate::text::{decimal, digit_char, digits, hexadecimal};

verus! {

/// In decimal, a number below ten is one character, `'0'` and as many more as the number is. A
/// larger one is its tenth, rounded down, followed by its last digit.
pub proof fn law_decimal_is_written_digit_by_digit(value: nat)
    ensures
        value < 10 ==> decimal(value).len() == 1 && decimal(value)[0] as int == 48 + value,
        value >= 10 ==> {
            &&& decimal(value).len() == decimal(value / 10).len() + 1
            &&& decimal(value).drop_last() == decimal(value / 10)
            &&& decimal(value).last() as int == 48 + value % 10
        },
{
    let last = digit_char((value % 10) as int);
    assert(last as int == 48 + value % 10);
    if value >= 10 {
        assert(decimal(value).drop_last() =~= decimal(value / 10));
    }
}

/// In hexadecimal, a number has the prefix `0x`. After it, one below sixteen is one character,
/// `'0'` and as many more as the number is, or `'a'` and as many more as it is above ten. A larger
/// one is its sixteenth, rounded down, followed by its last digit.
pub proof fn law_hexadecimal_is_written_digit_by_digit(value: nat)
    ensures
        ({
            let text = hexadecimal(value);
            let last = value % 16;
            &&& text.len() >= 3
            &&& text[0] == '0'
            &&& text[1] == 'x'
            &&& last < 10 ==> text.last() as int == 48 + last
            &&& last >= 10 ==> text.last() as int == 87 + last
            &&& value < 16 ==> text.len() == 3
            &&& value >= 16 ==> text.drop_last() == hexadecimal(value / 16)
        }),
{
    reveal_strlit("0x");
    let text = hexadecimal(value);
    let last = digit_char((value % 16) as int);
    assert(value % 16 < 10 ==> last as int == 48 + value % 16);
    assert(value % 16 >= 10 ==> last as int == 87 + value % 16);
    if value >= 16 {
        assert(digits(value, 16) == digits(value / 16, 16).push(last));
        assert(text.drop_last() =~= hexadecimal(value / 16));
    } else {
        assert(digits(value, 16) == seq![last]);
    }
}

/// The numbers and names that both ends of the protocol must agree on.
pub proof fn law_protocol_has_these_numbers()
    ensures
        UFFD_HANDOFF_PROTOCOL@ == "meridian-cloud-hypervisor-uffd-handoff"@,
        UFFD_HANDOFF_VERSION == 2,
        UFFD_HANDOFF_ACK == 1,
        COOP_OP_EVICT == 1,
        COOP_OP_EVICT_RESULT == 129,
        COOP_FRAME_VERSION == 2,
        COOP_EVICT_REQUEST_HEADER_BYTES == 16,
        COOP_EVICT_RESPONSE_HEADER_BYTES == 20,
        COOP_EVICT_RESULT_BYTES == 12,
        COOP_PFN_BYTES == 8,
        COOP_MAX_EVICT_PFNS == 65_536,
        COOP_PAGE_SIZE == 4096,
        UFFD_API_VALUE == 170,
        UFFD_FEATURE_MISSING_SHMEM == 8,
        UFFD_FEATURE_MINOR_SHMEM == 512,
        UFFD_USER_MODE_ONLY == 1,
        UFFDIO_API_REQUEST == 0xC018_AA3F,
{
}

} // verus!
