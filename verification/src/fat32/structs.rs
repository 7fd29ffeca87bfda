//! The typed views of the raw sectors: boot sector and FSInfo, and the two
//! number types that keep cluster numbers and sector numbers apart.
//!
//! Both sector types own the full raw bytes as read, so that a write puts
//! back every byte that no setter touched.

use crate::error::{BootSectorFault, Error, FsInfoFault};
use crate::fat32::layout;
use crate::fat32::layout::{read_u16_le, read_u32_le, write_u32_le};
use crate::text::{decimal, decimal_text};
use vstd::prelude::*;
use vstd::slice::{slice_subrange, slice_to_vec};
use vstd::string::StringExecFns;

verus! {

/// A cluster number. Data clusters start at 2; 0 and 1 are reserved.
#[derive(Debug, Clone, Copy, PartialEq, Eq, PartialOrd, Ord, Hash)]
pub struct ClusterId(pub u32);

impl ClusterId {
    /// The first data cluster: cluster 2.
    pub fn first_data_cluster() -> (r: Self)
        ensures
            r.0 == 2,
    {
        ClusterId(2)
    }

    /// Wraps a raw cluster number without checking it.
    pub fn new(id: u32) -> (r: Self)
        ensures
            r.0 == id,
    {
        ClusterId(id)
    }

    /// Wraps a raw cluster number if it names a data cluster.
    pub fn new_checked(id: u32) -> (r: Option<Self>)
        ensures
            id >= 2 ==> r == Some(ClusterId(id)),
            id < 2 ==> r.is_none(),
    {
        if id >= 2 {
            Some(ClusterId(id))
        } else {
            None
        }
    }

    /// The raw cluster number.
    pub fn get(self) -> (r: u32)
        ensures
            r == self.0,
    {
        self.0
    }

    /// The position of the cluster in the data area, counted from 0; the
    /// reserved numbers 0 and 1 give 0.
    pub fn index(self) -> (r: u32)
        ensures
            self.0 >= 2 ==> r == self.0 - 2,
            self.0 < 2 ==> r == 0,
    {
        self.0.saturating_sub(2)
    }

    /// The cluster number for a human reader: `cluster 5`.
    pub fn to_text(self) -> (r: String)
        ensures
            r@ == "cluster "@ + decimal_text(self.0 as nat),
    {
        String::from_str("cluster ").concat(decimal(self.0 as u64).as_str())
    }
}

impl From<u32> for ClusterId {
    fn from(id: u32) -> (r: Self) {
        ClusterId(id)
    }
}

impl vstd::std_specs::convert::FromSpecImpl<u32> for ClusterId {
    open spec fn obeys_from_spec() -> bool {
        true
    }

    open spec fn from_spec(id: u32) -> Self {
        ClusterId(id)
    }
}

impl From<ClusterId> for u32 {
    fn from(id: ClusterId) -> (r: Self) {
        id.0
    }
}

impl vstd::std_specs::convert::FromSpecImpl<ClusterId> for u32 {
    open spec fn obeys_from_spec() -> bool {
        true
    }

    open spec fn from_spec(id: ClusterId) -> Self {
        id.0
    }
}

/// A sector number, counted from the start of the device.
#[derive(Debug, Clone, Copy, PartialEq, Eq, PartialOrd, Ord, Hash)]
pub struct SectorNum(pub u64);

impl SectorNum {
    /// Wraps a raw sector number.
    pub fn new(sector: u64) -> (r: Self)
        ensures
            r.0 == sector,
    {
        SectorNum(sector)
    }

    /// The raw sector number.
    pub fn get(self) -> (r: u64)
        ensures
            r == self.0,
    {
        self.0
    }

    /// The sector `offset` sectors further on.
    pub fn offset(self, offset: u64) -> (r: Self)
        requires
            self.0 + offset <= u64::MAX,
        ensures
            r.0 == self.0 + offset,
    {
        SectorNum(self.0 + offset)
    }

    /// The byte at which the sector starts, for sectors of `sector_size`
    /// bytes.
    pub fn to_byte_offset(self, sector_size: u32) -> (r: u64)
        requires
            self.0 * sector_size <= u64::MAX,
        ensures
            r == self.0 * sector_size,
    {
        self.0 * (sector_size as u64)
    }

    /// The sector number for a human reader: `sector 5`.
    pub fn to_text(self) -> (r: String)
        ensures
            r@ == "sector "@ + decimal_text(self.0 as nat),
    {
        String::from_str("sector ").concat(decimal(self.0).as_str())
    }
}

impl From<u64> for SectorNum {
    fn from(sector: u64) -> (r: Self) {
        SectorNum(sector)
    }
}

impl vstd::std_specs::convert::FromSpecImpl<u64> for SectorNum {
    open spec fn obeys_from_spec() -> bool {
        true
    }

    open spec fn from_spec(sector: u64) -> Self {
        SectorNum(sector)
    }
}

impl From<SectorNum> for u64 {
    fn from(sector: SectorNum) -> (r: Self) {
        sector.0
    }
}

impl vstd::std_specs::convert::FromSpecImpl<SectorNum> for u64 {
    open spec fn obeys_from_spec() -> bool {
        true
    }

    open spec fn from_spec(sector: SectorNum) -> Self {
        sector.0
    }
}

/// The boot sector of a FAT32 volume, kept as the raw bytes of the sector.
#[derive(Debug)]
pub struct BootSector {
    raw: Vec<u8>,
}

impl View for BootSector {
    type V = Seq<u8>;

    closed spec fn view(&self) -> Seq<u8> {
        self.raw@
    }
}

impl Clone for BootSector {
    fn clone(&self) -> (r: Self)
        ensures
            r@ == self@,
    {
        BootSector { raw: slice_to_vec(self.raw.as_slice()) }
    }
}

impl BootSector {
    /// A boot sector holds at least the 512 bytes in which its fields lie.
    /// `from_bytes` establishes this and every method keeps it.
    pub open spec fn wf(&self) -> bool {
        self@.len() >= layout::MIN_SECTOR_SIZE
    }

    /// Takes over a copy of `bytes` as a boot sector. Fewer than 512 bytes
    /// are rejected; nothing else is checked here.
    pub fn from_bytes(bytes: &[u8]) -> (r: Result<Self, Error>)
        ensures
            bytes@.len() >= 512 ==> r.is_ok() && r.unwrap()@ == bytes@ && r.unwrap().wf(),
            bytes@.len() < 512 ==> r == Err::<Self, Error>(
                Error::BootSectorValidation(BootSectorFault::TooSmall(bytes@.len() as usize)),
            ),
    {
        if bytes.len() < layout::MIN_SECTOR_SIZE {
            return Err(Error::BootSectorValidation(BootSectorFault::TooSmall(bytes.len())));
        }
        Ok(BootSector { raw: slice_to_vec(bytes) })
    }

    /// The raw bytes of the whole sector.
    pub fn as_bytes(&self) -> (r: &[u8])
        ensures
            r@ == self@,
    {
        self.raw.as_slice()
    }

    /// The raw bytes of the whole sector, for writing in place.
    pub fn as_bytes_mut(&mut self) -> (r: &mut [u8])
        ensures
            r@ == old(self)@,
            final(r)@ == final(self)@,
    {
        self.raw.as_mut_slice()
    }

    /// The number of bytes that the sector was read with.
    pub fn sector_size(&self) -> (r: usize)
        ensures
            r == self@.len(),
    {
        self.raw.len()
    }

    /// Jump instruction (offset 0, 3 bytes).
    pub fn jump_boot(&self) -> (r: &[u8])
        requires
            self.wf(),
        ensures
            r@ == self@.subrange(0, 3),
    {
        slice_subrange(self.raw.as_slice(), 0, 3)
    }

    /// OEM name (offset 3, 8 bytes).
    pub fn oem_name(&self) -> (r: &[u8])
        requires
            self.wf(),
        ensures
            r@ == self@.subrange(3, 11),
    {
        slice_subrange(self.raw.as_slice(), 3, 11)
    }

    /// Bytes per sector (offset 11).
    pub fn bytes_per_sector(&self) -> (r: u16)
        requires
            self.wf(),
        ensures
            r == layout::bytes_per_sector(self@),
    {
        read_u16_le(self.raw.as_slice(), 11)
    }

    /// Sectors per cluster (offset 13).
    pub fn sectors_per_cluster(&self) -> (r: u8)
        requires
            self.wf(),
        ensures
            r == layout::sectors_per_cluster(self@),
    {
        self.raw[13]
    }

    /// Reserved sector count, the boot sector included (offset 14).
    pub fn reserved_sectors(&self) -> (r: u16)
        requires
            self.wf(),
        ensures
            r == layout::reserved_sectors(self@),
    {
        read_u16_le(self.raw.as_slice(), 14)
    }

    /// Number of FAT copies (offset 16).
    pub fn num_fats(&self) -> (r: u8)
        requires
            self.wf(),
        ensures
            r == layout::num_fats(self@),
    {
        self.raw[16]
    }

    /// Root directory entries of FAT12/16; 0 on FAT32 (offset 17).
    pub fn root_entry_count(&self) -> (r: u16)
        requires
            self.wf(),
        ensures
            r == layout::root_entry_count(self@),
    {
        read_u16_le(self.raw.as_slice(), 17)
    }

    /// Total sectors, 16-bit; 0 on FAT32 (offset 19).
    pub fn total_sectors_16(&self) -> (r: u16)
        requires
            self.wf(),
        ensures
            r == layout::total_sectors_16(self@),
    {
        read_u16_le(self.raw.as_slice(), 19)
    }

    /// Media type (offset 21).
    pub fn media_type(&self) -> (r: u8)
        requires
            self.wf(),
        ensures
            r == layout::media_type(self@),
    {
        self.raw[21]
    }

    /// Sectors per FAT, 16-bit; 0 on FAT32 (offset 22).
    pub fn fat_size_16(&self) -> (r: u16)
        requires
            self.wf(),
        ensures
            r == layout::fat_size_16(self@),
    {
        read_u16_le(self.raw.as_slice(), 22)
    }

    /// Sectors per track (offset 24).
    pub fn sectors_per_track(&self) -> (r: u16)
        requires
            self.wf(),
        ensures
            r == layout::le_u16(self@, 24),
    {
        read_u16_le(self.raw.as_slice(), 24)
    }

    /// Number of heads (offset 26).
    pub fn num_heads(&self) -> (r: u16)
        requires
            self.wf(),
        ensures
            r == layout::le_u16(self@, 26),
    {
        read_u16_le(self.raw.as_slice(), 26)
    }

    /// Sectors before this partition (offset 28).
    pub fn hidden_sectors(&self) -> (r: u32)
        requires
            self.wf(),
        ensures
            r == layout::le_u32(self@, 28),
    {
        read_u32_le(self.raw.as_slice(), 28)
    }

    /// Total sectors, 32-bit (offset 32).
    pub fn total_sectors_32(&self) -> (r: u32)
        requires
            self.wf(),
        ensures
            r == layout::total_sectors_32(self@),
    {
        read_u32_le(self.raw.as_slice(), 32)
    }

    /// Sets the 32-bit total sector count; every other byte stays.
    pub fn set_total_sectors_32(&mut self, value: u32)
        requires
            old(self).wf(),
        ensures
            final(self).wf(),
            final(self)@ == layout::overwrite(old(self)@, 32, layout::u32_le_bytes(value)),
            layout::le_u32(final(self)@, 32) == value,
    {
        proof {
            layout::lemma_overwrite_u32(self@, 32, value);
        }
        write_u32_le(&mut self.raw, 32, value);
    }

    /// Sectors per FAT, 32-bit (offset 36).
    pub fn fat_size_32(&self) -> (r: u32)
        requires
            self.wf(),
        ensures
            r == layout::fat_size_32(self@),
    {
        read_u32_le(self.raw.as_slice(), 36)
    }

    /// Sets the 32-bit FAT size; every other byte stays.
    pub fn set_fat_size_32(&mut self, value: u32)
        requires
            old(self).wf(),
        ensures
            final(self).wf(),
            final(self)@ == layout::overwrite(old(self)@, 36, layout::u32_le_bytes(value)),
            layout::le_u32(final(self)@, 36) == value,
    {
        proof {
            layout::lemma_overwrite_u32(self@, 36, value);
        }
        write_u32_le(&mut self.raw, 36, value);
    }

    /// Extended flags: bit 7 set means one active FAT, named by bits 0-3 (offset 40).
    pub fn ext_flags(&self) -> (r: u16)
        requires
            self.wf(),
        ensures
            r == layout::le_u16(self@, 40),
    {
        read_u16_le(self.raw.as_slice(), 40)
    }

    /// FAT32 version (offset 42).
    pub fn fs_version(&self) -> (r: u16)
        requires
            self.wf(),
        ensures
            r == layout::le_u16(self@, 42),
    {
        read_u16_le(self.raw.as_slice(), 42)
    }

    /// First cluster of the root directory (offset 44).
    pub fn root_cluster(&self) -> (r: u32)
        requires
            self.wf(),
        ensures
            r == layout::root_cluster(self@),
    {
        read_u32_le(self.raw.as_slice(), 44)
    }

    /// Sets the root directory cluster; every other byte stays.
    pub fn set_root_cluster(&mut self, value: u32)
        requires
            old(self).wf(),
        ensures
            final(self).wf(),
            final(self)@ == layout::overwrite(old(self)@, 44, layout::u32_le_bytes(value)),
            layout::le_u32(final(self)@, 44) == value,
    {
        proof {
            layout::lemma_overwrite_u32(self@, 44, value);
        }
        write_u32_le(&mut self.raw, 44, value);
    }

    /// Sector of the FSInfo structure (offset 48).
    pub fn fs_info_sector(&self) -> (r: u16)
        requires
            self.wf(),
        ensures
            r == layout::fs_info_sector(self@),
    {
        read_u16_le(self.raw.as_slice(), 48)
    }

    /// Sector of the backup boot sector (offset 50).
    pub fn backup_boot_sector(&self) -> (r: u16)
        requires
            self.wf(),
        ensures
            r == layout::backup_boot_sector(self@),
    {
        read_u16_le(self.raw.as_slice(), 50)
    }

    /// Reserved bytes (offset 52, 12 bytes).
    pub fn reserved(&self) -> (r: &[u8])
        requires
            self.wf(),
        ensures
            r@ == self@.subrange(52, 64),
    {
        slice_subrange(self.raw.as_slice(), 52, 64)
    }

    /// Drive number (offset 64).
    pub fn drive_number(&self) -> (r: u8)
        requires
            self.wf(),
        ensures
            r == self@[64],
    {
        self.raw[64]
    }

    /// Reserved byte, used by Windows NT for flags (offset 65).
    pub fn reserved1(&self) -> (r: u8)
        requires
            self.wf(),
        ensures
            r == self@[65],
    {
        self.raw[65]
    }

    /// Extended boot signature, 0x28 or 0x29 (offset 66).
    pub fn boot_sig(&self) -> (r: u8)
        requires
            self.wf(),
        ensures
            r == self@[66],
    {
        self.raw[66]
    }

    /// Volume serial number (offset 67).
    pub fn volume_id(&self) -> (r: u32)
        requires
            self.wf(),
        ensures
            r == layout::le_u32(self@, 67),
    {
        read_u32_le(self.raw.as_slice(), 67)
    }

    /// Volume label (offset 71, 11 bytes).
    pub fn volume_label(&self) -> (r: &[u8])
        requires
            self.wf(),
        ensures
            r@ == self@.subrange(71, 82),
    {
        slice_subrange(self.raw.as_slice(), 71, 82)
    }

    /// File system type string (offset 82, 8 bytes).
    pub fn fs_type(&self) -> (r: &[u8])
        requires
            self.wf(),
        ensures
            r@ == self@.subrange(82, 90),
    {
        slice_subrange(self.raw.as_slice(), 82, 90)
    }

    /// Signature at the end of the sector (offset 510).
    pub fn boot_signature(&self) -> (r: u16)
        requires
            self.wf(),
        ensures
            r == layout::boot_signature(self@),
    {
        read_u16_le(self.raw.as_slice(), 510)
    }

    /// The boot signature of a valid boot sector.
    pub const VALID_SIGNATURE: u16 = 0xAA55;

    /// Whether the boot signature is the valid one.
    pub fn is_signature_valid(&self) -> (r: bool)
        requires
            self.wf(),
        ensures
            r == (layout::boot_signature(self@) == layout::VALID_SIGNATURE),
    {
        self.boot_signature() == layout::VALID_SIGNATURE
    }

    /// Zeroes the boot signature, so that no other tool takes the volume
    /// for FAT32 while it is being rebuilt. Every other byte stays.
    pub fn invalidate_signature(&mut self)
        requires
            old(self).wf(),
        ensures
            final(self).wf(),
            final(self)@ == old(self)@.update(510, 0u8).update(511, 0u8),
            layout::boot_signature(final(self)@) == 0,
    {
        self.raw[510] = 0x00;
        self.raw[511] = 0x00;
    }

    /// Writes the valid boot signature. Every other byte stays.
    pub fn restore_signature(&mut self)
        requires
            old(self).wf(),
        ensures
            final(self).wf(),
            final(self)@ == old(self)@.update(510, 0x55u8).update(511, 0xAAu8),
            layout::boot_signature(final(self)@) == layout::VALID_SIGNATURE,
    {
        self.raw[510] = 0x55;
        self.raw[511] = 0xAA;
    }

    /// Total sectors of the volume: the 32-bit count where it is set, else
    /// the 16-bit one.
    pub fn total_sectors(&self) -> (r: u32)
        requires
            self.wf(),
        ensures
            r == layout::total_sectors(self@),
            layout::total_sectors_32(self@) != 0 ==> r == layout::total_sectors_32(self@),
            layout::total_sectors_32(self@) == 0 ==> r == layout::total_sectors_16(self@),
    {
        let total32: u32 = self.total_sectors_32();
        if total32 != 0 {
            total32
        } else {
            self.total_sectors_16() as u32
        }
    }

    /// Sectors per FAT: the 32-bit size, unless the 16-bit one is set.
    pub fn fat_size(&self) -> (r: u32)
        requires
            self.wf(),
        ensures
            r == layout::fat_size(self@),
    {
        let fat16: u16 = self.fat_size_16();
        if fat16 == 0 {
            self.fat_size_32()
        } else {
            fat16 as u32
        }
    }

    /// First sector of the FAT area.
    pub fn first_fat_sector(&self) -> (r: u64)
        requires
            self.wf(),
        ensures
            r == layout::reserved_sectors(self@),
    {
        self.reserved_sectors() as u64
    }

    /// First sector of the data area. Bytes per sector must not be zero.
    pub fn first_data_sector(&self) -> (r: u64)
        requires
            self.wf(),
            layout::bytes_per_sector(self@) != 0,
        ensures
            r == layout::first_data_sector(self@),
    {
        let bps: u64 = self.bytes_per_sector() as u64;
        let root_dir_sectors: u64 = (self.root_entry_count() as u64 * 32 + bps - 1) / bps;
        let num_fats: u64 = self.num_fats() as u64;
        let fat_size: u64 = self.fat_size() as u64;
        assert(num_fats * fat_size <= 255 * 0xFFFF_FFFF) by (nonlinear_arith)
            requires
                num_fats <= 255,
                fat_size <= 0xFFFF_FFFF,
        ;
        self.reserved_sectors() as u64 + num_fats * fat_size + root_dir_sectors
    }

    /// Sectors in the data area. The boot sector must declare at least as
    /// many sectors as its reserved area and FATs take.
    pub fn data_sectors(&self) -> (r: u64)
        requires
            self.wf(),
            layout::bytes_per_sector(self@) != 0,
            layout::data_sectors(self@) >= 0,
        ensures
            r == layout::data_sectors(self@),
    {
        self.total_sectors() as u64 - self.first_data_sector()
    }

    /// Whole clusters in the data area.
    pub fn data_clusters(&self) -> (r: u32)
        requires
            self.wf(),
            layout::geometry_defined(self@),
        ensures
            r == layout::data_clusters(self@),
    {
        let sectors: u64 = self.data_sectors();
        let spc: u64 = self.sectors_per_cluster() as u64;
        (sectors / spc) as u32
    }

    /// First sector of a data cluster; clusters are numbered from 2.
    pub fn cluster_to_sector(&self, cluster: u32) -> (r: u64)
        requires
            self.wf(),
            layout::bytes_per_sector(self@) != 0,
            cluster >= 2,
        ensures
            r == layout::cluster_to_sector(self@, cluster as int),
    {
        let first: u64 = self.first_data_sector();
        let index: u64 = (cluster - 2) as u64;
        let spc: u64 = self.sectors_per_cluster() as u64;
        assert(index * spc <= 0xFFFF_FFFF * 255) by (nonlinear_arith)
            requires
                index <= 0xFFFF_FFFF,
                spc <= 255,
        ;
        assert(layout::num_fats(self@) * layout::fat_size(self@) <= 255 * 0xFFFF_FFFF)
            by (nonlinear_arith)
            requires
                layout::num_fats(self@) <= 255,
                layout::fat_size(self@) <= 0xFFFF_FFFF,
        ;
        assert(layout::root_dir_sectors(self@) <= 65535 * 32 + 65535);
        first + index * spc
    }

    /// Bytes per cluster.
    pub fn bytes_per_cluster(&self) -> (r: u32)
        requires
            self.wf(),
        ensures
            r == layout::bytes_per_cluster(self@),
    {
        let bps: u32 = self.bytes_per_sector() as u32;
        let spc: u32 = self.sectors_per_cluster() as u32;
        assert(bps * spc <= 65535 * 255) by (nonlinear_arith)
            requires
                bps <= 65535,
                spc <= 255,
        ;
        bps * spc
    }
}

/// The FSInfo sector of a FAT32 volume, kept as the raw bytes of the
/// sector. It carries hints about free clusters; they are advisory.
#[derive(Debug)]
pub struct FSInfo {
    raw: Vec<u8>,
}

impl View for FSInfo {
    type V = Seq<u8>;

    closed spec fn view(&self) -> Seq<u8> {
        self.raw@
    }
}

impl Clone for FSInfo {
    fn clone(&self) -> (r: Self)
        ensures
            r@ == self@,
    {
        FSInfo { raw: slice_to_vec(self.raw.as_slice()) }
    }
}

/// The lead signature of an FSInfo sector, as a sequence of raw bytes sees
/// it.
pub open spec fn fsinfo_lead_sig(raw: Seq<u8>) -> u32 {
    layout::le_u32(raw, 0)
}

pub open spec fn fsinfo_struc_sig(raw: Seq<u8>) -> u32 {
    layout::le_u32(raw, 484)
}

pub open spec fn fsinfo_free_count(raw: Seq<u8>) -> u32 {
    layout::le_u32(raw, 488)
}

pub open spec fn fsinfo_next_free(raw: Seq<u8>) -> u32 {
    layout::le_u32(raw, 492)
}

pub open spec fn fsinfo_trail_sig(raw: Seq<u8>) -> u32 {
    layout::le_u32(raw, 508)
}

impl FSInfo {
    /// Lead signature value (offset 0).
    pub const LEAD_SIG: u32 = 0x41615252;

    /// Structure signature value (offset 484).
    pub const STRUC_SIG: u32 = 0x61417272;

    /// Trail signature value (offset 508).
    pub const TRAIL_SIG: u32 = 0xAA550000;

    /// The free count that stands for "unknown".
    pub const UNKNOWN_FREE: u32 = 0xFFFFFFFF;

    /// An FSInfo sector holds at least the 512 bytes in which its fields
    /// lie. `from_bytes` establishes this and every method keeps it.
    pub open spec fn wf(&self) -> bool {
        self@.len() >= layout::MIN_SECTOR_SIZE
    }

    /// Takes over a copy of `bytes` as an FSInfo sector. Fewer than 512
    /// bytes are rejected; the signatures are not checked here.
    pub fn from_bytes(bytes: &[u8]) -> (r: Result<Self, Error>)
        ensures
            bytes@.len() >= 512 ==> r.is_ok() && r.unwrap()@ == bytes@ && r.unwrap().wf(),
            bytes@.len() < 512 ==> r == Err::<Self, Error>(
                Error::FSInfoValidation(FsInfoFault::TooSmall(bytes@.len() as usize)),
            ),
    {
        if bytes.len() < layout::MIN_SECTOR_SIZE {
            return Err(Error::FSInfoValidation(FsInfoFault::TooSmall(bytes.len())));
        }
        Ok(FSInfo { raw: slice_to_vec(bytes) })
    }

    /// The raw bytes of the whole sector.
    pub fn as_bytes(&self) -> (r: &[u8])
        ensures
            r@ == self@,
    {
        self.raw.as_slice()
    }

    /// The raw bytes of the whole sector, for writing in place.
    pub fn as_bytes_mut(&mut self) -> (r: &mut [u8])
        ensures
            r@ == old(self)@,
            final(r)@ == final(self)@,
    {
        self.raw.as_mut_slice()
    }

    /// The number of bytes that the sector was read with.
    pub fn sector_size(&self) -> (r: usize)
        ensures
            r == self@.len(),
    {
        self.raw.len()
    }

    /// Lead signature (offset 0).
    pub fn lead_sig(&self) -> (r: u32)
        requires
            self.wf(),
        ensures
            r == fsinfo_lead_sig(self@),
    {
        read_u32_le(self.raw.as_slice(), 0)
    }

    /// Structure signature (offset 484).
    pub fn struc_sig(&self) -> (r: u32)
        requires
            self.wf(),
        ensures
            r == fsinfo_struc_sig(self@),
    {
        read_u32_le(self.raw.as_slice(), 484)
    }

    /// Free cluster count; `UNKNOWN_FREE` where unknown (offset 488).
    pub fn free_count(&self) -> (r: u32)
        requires
            self.wf(),
        ensures
            r == fsinfo_free_count(self@),
    {
        read_u32_le(self.raw.as_slice(), 488)
    }

    /// Sets the free cluster count; every other byte stays.
    pub fn set_free_count(&mut self, value: u32)
        requires
            old(self).wf(),
        ensures
            final(self).wf(),
            final(self)@ == layout::overwrite(old(self)@, 488, layout::u32_le_bytes(value)),
            fsinfo_free_count(final(self)@) == value,
    {
        proof {
            layout::lemma_overwrite_u32(self@, 488, value);
        }
        write_u32_le(&mut self.raw, 488, value);
    }

    /// Hint for the next free cluster (offset 492).
    pub fn next_free(&self) -> (r: u32)
        requires
            self.wf(),
        ensures
            r == fsinfo_next_free(self@),
    {
        read_u32_le(self.raw.as_slice(), 492)
    }

    /// Sets the next-free hint; every other byte stays.
    pub fn set_next_free(&mut self, value: u32)
        requires
            old(self).wf(),
        ensures
            final(self).wf(),
            final(self)@ == layout::overwrite(old(self)@, 492, layout::u32_le_bytes(value)),
            fsinfo_next_free(final(self)@) == value,
    {
        proof {
            layout::lemma_overwrite_u32(self@, 492, value);
        }
        write_u32_le(&mut self.raw, 492, value);
    }

    /// Trail signature (offset 508).
    pub fn trail_sig(&self) -> (r: u32)
        requires
            self.wf(),
        ensures
            r == fsinfo_trail_sig(self@),
    {
        read_u32_le(self.raw.as_slice(), 508)
    }
}

} // verus!
