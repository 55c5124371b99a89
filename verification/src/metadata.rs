//! The document that describes a handoff to the peer, and the payload that carries it.

use vstd::prelude::*;

use crate::evict::CooperationRegion;
use crate::wire::{self, put_u32};

verus! {

/// Stable protocol identifier for the handoff metadata document.
pub const UFFD_HANDOFF_PROTOCOL: &'static str = "meridian-cloud-hypervisor-uffd-handoff";

/// Current handoff and post-handoff cooperation protocol version.
pub const UFFD_HANDOFF_VERSION: u32 = 2;

/// Acknowledgement byte the peer must send after receiving the handoff.
pub const UFFD_HANDOFF_ACK: u8 = 0x01;

/// One guest RAM region eligible for userfaultfd registration and handoff.
#[derive(Clone, Copy, Debug, PartialEq, Eq, Structural)]
pub struct UffdHandoffRegionSource {
    pub guest_phys_addr: u64,
    pub len: u64,
    pub host_virt_addr: usize,
    pub file_offset: u64,
    pub backing_dev: u64,
    pub backing_ino: u64,
    /// True when the region is mapped `MAP_SHARED`. A `MAP_PRIVATE` region is
    /// evictable by the owner (`MADV_DONTNEED` re-faults MISSING); a shared
    /// region is not (the page persists in the shared object).
    pub shared: bool,
}

/// Per-region record in the handoff metadata document.
#[derive(Clone, Copy, Debug, PartialEq, Eq, Structural)]
pub struct UffdHandoffRegion {
    pub guest_phys_addr: u64,
    pub len: u64,
    pub host_virt_addr: u64,
    pub file_offset: u64,
    pub backing_dev: u64,
    pub backing_ino: u64,
    /// True when the region is mapped `MAP_SHARED` (not evictable via
    /// `MADV_DONTNEED`); false for `MAP_PRIVATE` (evictable).
    pub shared: bool,
}

/// Handoff metadata document sent ahead of the descriptor.
#[derive(Debug)]
pub struct UffdHandoffMetadata {
    pub protocol: &'static str,
    pub version: u32,
    pub pid: u32,
    /// True when the descriptor could only be created with
    /// `UFFD_USER_MODE_ONLY`; kernel-mode faults (e.g. KVM guest access) will
    /// NOT be delivered on such a descriptor. Receivers must treat this as a
    /// degraded, non-closure configuration.
    pub user_mode_only: bool,
    /// True when every region was registered with
    /// `UFFDIO_REGISTER_MODE_MISSING | UFFDIO_REGISTER_MODE_WP`; false when
    /// only missing-page registration was possible.
    pub registered_write_protect: bool,
    pub regions: Vec<UffdHandoffRegion>,
}

/// The record of a region in the metadata document.
pub open spec fn region_record(source: UffdHandoffRegionSource) -> UffdHandoffRegion {
    UffdHandoffRegion {
        guest_phys_addr: source.guest_phys_addr,
        len: source.len,
        host_virt_addr: source.host_virt_addr as u64,
        file_offset: source.file_offset,
        backing_dev: source.backing_dev,
        backing_ino: source.backing_ino,
        shared: source.shared,
    }
}

/// What the servicing of EVICT requests needs of a region.
pub open spec fn cooperation_region(source: UffdHandoffRegionSource) -> CooperationRegion {
    CooperationRegion {
        guest_phys_addr: source.guest_phys_addr,
        host_virt_addr: source.host_virt_addr as u64,
        len: source.len,
        shared: source.shared,
    }
}

/// Whether `metadata` describes a handoff of `regions` with these capabilities.
pub open spec fn describes(
    metadata: UffdHandoffMetadata,
    regions: Seq<UffdHandoffRegionSource>,
    pid: u32,
    user_mode_only: bool,
    registered_write_protect: bool,
) -> bool {
    &&& metadata.protocol@ == UFFD_HANDOFF_PROTOCOL@
    &&& metadata.version == UFFD_HANDOFF_VERSION
    &&& metadata.pid == pid
    &&& metadata.user_mode_only == user_mode_only
    &&& metadata.registered_write_protect == registered_write_protect
    &&& metadata.regions@ == regions.map_values(
        |source: UffdHandoffRegionSource| region_record(source),
    )
}

/// Describes a handoff of `regions`, in their order.
pub fn describe_handoff(
    regions: &[UffdHandoffRegionSource],
    pid: u32,
    user_mode_only: bool,
    registered_write_protect: bool,
) -> (metadata: UffdHandoffMetadata)
    ensures
        describes(metadata, regions@, pid, user_mode_only, registered_write_protect),
{
    let mut records: Vec<UffdHandoffRegion> = Vec::with_capacity(regions.len());
    let mut i: usize = 0;
    while i < regions.len()
        invariant
            i <= regions@.len(),
            records@.len() == i,
            forall|j: int| 0 <= j < i ==> records@[j] == region_record(#[trigger] regions@[j]),
        decreases regions@.len() - i,
    {
        let source = regions[i];
        records.push(
            UffdHandoffRegion {
                guest_phys_addr: source.guest_phys_addr,
                len: source.len,
                host_virt_addr: source.host_virt_addr as u64,
                file_offset: source.file_offset,
                backing_dev: source.backing_dev,
                backing_ino: source.backing_ino,
                shared: source.shared,
            },
        );
        i = i + 1;
    }
    assert(records@ =~= regions@.map_values(
        |source: UffdHandoffRegionSource| region_record(source),
    ));
    UffdHandoffMetadata {
        protocol: UFFD_HANDOFF_PROTOCOL,
        version: UFFD_HANDOFF_VERSION,
        pid,
        user_mode_only,
        registered_write_protect,
        regions: records,
    }
}

/// Picks what the servicing of EVICT requests needs of each region.
pub fn cooperation_regions(regions: &[UffdHandoffRegionSource]) -> (maps: Vec<CooperationRegion>)
    ensures
        maps@ == regions@.map_values(|source: UffdHandoffRegionSource| cooperation_region(source)),
{
    let mut maps: Vec<CooperationRegion> = Vec::with_capacity(regions.len());
    let mut i: usize = 0;
    while i < regions.len()
        invariant
            i <= regions@.len(),
            maps@.len() == i,
            forall|j: int| 0 <= j < i ==> maps@[j] == cooperation_region(#[trigger] regions@[j]),
        decreases regions@.len() - i,
    {
        let source = regions[i];
        maps.push(
            CooperationRegion {
                guest_phys_addr: source.guest_phys_addr,
                host_virt_addr: source.host_virt_addr as u64,
                len: source.len,
                shared: source.shared,
            },
        );
        i = i + 1;
    }
    assert(maps@ =~= regions@.map_values(
        |source: UffdHandoffRegionSource| cooperation_region(source),
    ));
    maps
}

/// The payload that carries a metadata document: the length of the document in four bytes, then
/// the document. Of a length that four bytes cannot hold, the low bits are sent.
pub open spec fn payload_of(document: Seq<u8>) -> Seq<u8> {
    wire::u32_le((document.len() % 0x1_0000_0000) as u32) + document
}

/// Puts the length prefix before a serialized metadata document.
pub fn frame_document(document: &[u8]) -> (payload: Vec<u8>)
    ensures
        payload@ == payload_of(document@),
{
    let mut payload: Vec<u8> = Vec::new();
    put_u32(&mut payload, (document.len() as u64 % 0x1_0000_0000) as u32);
    payload.extend_from_slice(document);
    assert(payload@ =~= payload_of(document@));
    payload
}

/// The receiver of a payload finds the document in it: the prefix is the number of the bytes that
/// follow, and they are the document. This holds of every document whose length four bytes hold.
pub proof fn law_payload_carries_document(document: Seq<u8>)
    requires
        document.len() <= u32::MAX,
    ensures
        payload_of(document).len() == 4 + document.len(),
        wire::u32_at(payload_of(document), 0) == document.len(),
        payload_of(document).skip(4) == document,
{
    let payload = payload_of(document);
    let length = document.len() as u32;
    assert(payload.subrange(0, 4) =~= wire::u32_le(length));
    wire::lemma_u32_read_back(payload, 0, length);
    assert(payload.skip(4) =~= document);
}

} // verus!
