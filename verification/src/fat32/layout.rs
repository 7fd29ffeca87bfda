//! Little-endian fields inside a byte buffer, and the geometry that the
//! BIOS parameter block of a FAT32 boot sector fixes.
//!
//! Everything here is stated over `Seq<u8>`, the raw bytes of a sector, so
//! that contracts elsewhere can speak of a sector without parsing it.

use vstd::prelude::*;

verus! {

/// The 16-bit little-endian value at byte `at` of `s`.
pub open spec fn le_u16(s: Seq<u8>, at: int) -> u16 {
    (s[at] as int + 256 * (s[at + 1] as int)) as u16
}

/// The 32-bit little-endian value at byte `at` of `s`.
pub open spec fn le_u32(s: Seq<u8>, at: int) -> u32 {
    (s[at] as int + 256 * (s[at + 1] as int) + 65536 * (s[at + 2] as int) + 16777216 * (s[at
        + 3] as int)) as u32
}

/// The four bytes that hold `x` in little-endian order.
pub open spec fn u32_le_bytes(x: u32) -> Seq<u8> {
    seq![
        (x % 256) as u8,
        ((x / 256) % 256) as u8,
        ((x / 65536) % 256) as u8,
        (x / 16777216) as u8,
    ]
}

/// `s` with the bytes from `at` on replaced by `data`; the length stays.
pub open spec fn overwrite(s: Seq<u8>, at: int, data: Seq<u8>) -> Seq<u8> {
    Seq::new(
        s.len(),
        |i: int|
            if at <= i < at + data.len() {
                data[i - at]
            } else {
                s[i]
            },
    )
}

/// Decoding what was encoded gives the value back.
pub proof fn lemma_u32_round_trip(x: u32)
    ensures
        u32_le_bytes(x).len() == 4,
        le_u32(u32_le_bytes(x), 0) == x,
{
}

/// A 32-bit field written at `at` reads back as written, and a field that
/// the write does not touch keeps its value.
pub proof fn lemma_overwrite_u32(s: Seq<u8>, at: int, x: u32)
    requires
        0 <= at,
        at + 4 <= s.len(),
    ensures
        overwrite(s, at, u32_le_bytes(x)).len() == s.len(),
        le_u32(overwrite(s, at, u32_le_bytes(x)), at) == x,
        forall|i: int| 0 <= i < s.len() && !(at <= i < at + 4) ==> overwrite(s, at, u32_le_bytes(x))[i] == s[i],
{
    lemma_u32_round_trip(x);
}

/// A buffer that holds the little-endian bytes of `x` at `at` reads back
/// `x` there.
pub proof fn lemma_le_u32_at(data: Seq<u8>, at: int, x: u32)
    requires
        0 <= at,
        at + 4 <= data.len(),
        data.subrange(at, at + 4) == u32_le_bytes(x),
    ensures
        le_u32(data, at) == x,
{
    let part = data.subrange(at, at + 4);
    assert(part[0] == data[at]);
    assert(part[1] == data[at + 1]);
    assert(part[2] == data[at + 2]);
    assert(part[3] == data[at + 3]);
}

/// Reads the 16-bit little-endian value at byte `at`.
pub fn read_u16_le(data: &[u8], at: usize) -> (r: u16)
    requires
        at + 2 <= data@.len(),
    ensures
        r == le_u16(data@, at as int),
{
    let lo: u16 = data[at] as u16;
    let hi: u16 = data[at + 1] as u16;
    lo + hi * 256
}

/// Reads the 32-bit little-endian value at byte `at`.
pub fn read_u32_le(data: &[u8], at: usize) -> (r: u32)
    requires
        at + 4 <= data@.len(),
    ensures
        r == le_u32(data@, at as int),
{
    let b0: u32 = data[at] as u32;
    let b1: u32 = data[at + 1] as u32;
    let b2: u32 = data[at + 2] as u32;
    let b3: u32 = data[at + 3] as u32;
    b0 + b1 * 256 + b2 * 65536 + b3 * 16777216
}

/// Writes `x` in little-endian order at byte `at`; nothing else changes.
pub fn write_u32_le(data: &mut Vec<u8>, at: usize, x: u32)
    requires
        at + 4 <= old(data)@.len(),
    ensures
        final(data)@ == overwrite(old(data)@, at as int, u32_le_bytes(x)),
{
    let len: usize = data.len();
    assert(at + 4 <= len);
    data[at] = (x % 256) as u8;
    data[at + 1] = ((x / 256) % 256) as u8;
    data[at + 2] = ((x / 65536) % 256) as u8;
    data[at + 3] = (x / 16777216) as u8;
    assert(data@ =~= overwrite(old(data)@, at as int, u32_le_bytes(x)));
}

/// The smallest sector, and the part of a boot or FSInfo sector that holds
/// every documented field.
pub const MIN_SECTOR_SIZE: usize = 512;

/// The largest sector that FAT32 allows.
pub const MAX_SECTOR_SIZE: usize = 4096;

/// The boot signature of a valid boot sector.
pub const VALID_SIGNATURE: u16 = 0xAA55;

/// The least number of data clusters of a FAT32 volume.
pub const MIN_FAT32_CLUSTERS: u32 = 65525;

/// Whether `n` is one of the four sector sizes that FAT32 allows.
pub open spec fn is_sector_size(n: int) -> bool {
    n == 512 || n == 1024 || n == 2048 || n == 4096
}

pub open spec fn bytes_per_sector(raw: Seq<u8>) -> u16 {
    le_u16(raw, 11)
}

pub open spec fn sectors_per_cluster(raw: Seq<u8>) -> u8 {
    raw[13]
}

pub open spec fn reserved_sectors(raw: Seq<u8>) -> u16 {
    le_u16(raw, 14)
}

pub open spec fn num_fats(raw: Seq<u8>) -> u8 {
    raw[16]
}

pub open spec fn root_entry_count(raw: Seq<u8>) -> u16 {
    le_u16(raw, 17)
}

pub open spec fn total_sectors_16(raw: Seq<u8>) -> u16 {
    le_u16(raw, 19)
}

pub open spec fn media_type(raw: Seq<u8>) -> u8 {
    raw[21]
}

pub open spec fn fat_size_16(raw: Seq<u8>) -> u16 {
    le_u16(raw, 22)
}

pub open spec fn total_sectors_32(raw: Seq<u8>) -> u32 {
    le_u32(raw, 32)
}

pub open spec fn fat_size_32(raw: Seq<u8>) -> u32 {
    le_u32(raw, 36)
}

pub open spec fn root_cluster(raw: Seq<u8>) -> u32 {
    le_u32(raw, 44)
}

pub open spec fn fs_info_sector(raw: Seq<u8>) -> u16 {
    le_u16(raw, 48)
}

pub open spec fn backup_boot_sector(raw: Seq<u8>) -> u16 {
    le_u16(raw, 50)
}

pub open spec fn boot_signature(raw: Seq<u8>) -> u16 {
    le_u16(raw, 510)
}

/// The sector count of the volume: the 32-bit field where it is set, else
/// the 16-bit one.
pub open spec fn total_sectors(raw: Seq<u8>) -> u32 {
    if total_sectors_32(raw) != 0 {
        total_sectors_32(raw)
    } else {
        total_sectors_16(raw) as u32
    }
}

/// The size of one FAT in sectors: the 32-bit field, unless the 16-bit one
/// is set.
pub open spec fn fat_size(raw: Seq<u8>) -> u32 {
    if fat_size_16(raw) == 0 {
        fat_size_32(raw)
    } else {
        fat_size_16(raw) as u32
    }
}

/// Sectors of the fixed root directory: none on FAT32, where the root entry
/// count is zero. Meaningful only where bytes per sector is not zero.
pub open spec fn root_dir_sectors(raw: Seq<u8>) -> int {
    (root_entry_count(raw) * 32 + bytes_per_sector(raw) - 1) / (bytes_per_sector(raw) as int)
}

/// The first sector of the data area.
pub open spec fn first_data_sector(raw: Seq<u8>) -> int {
    reserved_sectors(raw) + num_fats(raw) * fat_size(raw) + root_dir_sectors(raw)
}

/// The number of sectors in the data area; negative where the boot sector
/// declares fewer sectors than its own metadata takes.
pub open spec fn data_sectors(raw: Seq<u8>) -> int {
    total_sectors(raw) - first_data_sector(raw)
}

/// Whether the derived geometry can be computed: the divisors are not zero
/// and the data area does not start beyond the end of the volume.
pub open spec fn geometry_defined(raw: Seq<u8>) -> bool {
    &&& bytes_per_sector(raw) != 0
    &&& sectors_per_cluster(raw) != 0
    &&& data_sectors(raw) >= 0
}

/// The number of whole clusters in the data area.
pub open spec fn data_clusters(raw: Seq<u8>) -> int {
    data_sectors(raw) / (sectors_per_cluster(raw) as int)
}

/// The first sector of cluster `cluster`; clusters are numbered from 2.
pub open spec fn cluster_to_sector(raw: Seq<u8>, cluster: int) -> int {
    first_data_sector(raw) + (cluster - 2) * sectors_per_cluster(raw)
}

/// The size of a cluster in bytes.
pub open spec fn bytes_per_cluster(raw: Seq<u8>) -> int {
    bytes_per_sector(raw) * sectors_per_cluster(raw)
}

/// Whether two boot sectors agree on every geometry field. The volume
/// serial number and label are not compared.
pub open spec fn same_geometry(a: Seq<u8>, b: Seq<u8>) -> bool {
    &&& bytes_per_sector(a) == bytes_per_sector(b)
    &&& sectors_per_cluster(a) == sectors_per_cluster(b)
    &&& reserved_sectors(a) == reserved_sectors(b)
    &&& num_fats(a) == num_fats(b)
    &&& total_sectors_32(a) == total_sectors_32(b)
    &&& fat_size_32(a) == fat_size_32(b)
    &&& root_cluster(a) == root_cluster(b)
    &&& fs_info_sector(a) == fs_info_sector(b)
    &&& backup_boot_sector(a) == backup_boot_sector(b)
}

} // verus!
