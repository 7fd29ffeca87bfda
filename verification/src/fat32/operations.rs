//! Reading and writing the structures of a FAT32 volume on a device: boot
//! sector, FSInfo, FAT tables and data clusters.
//!
//! What is computed on bytes that were read stands in functions of its own
//! (`parse_boot_sector`, `parse_fsinfo`, `decode_fat`, `merge_fat_entry`),
//! so that it serves any source of bytes.

use crate::device::{in_range, Device};
use crate::error::{BootSectorFault, Error, IoFault};
use crate::fat32::fat_entry;
use crate::fat32::layout;
use crate::fat32::layout::{le_u32, overwrite, read_u32_le, u32_le_bytes, write_u32_le};
use crate::fat32::structs::{BootSector, FSInfo};
use crate::fat32::validation::{
    boot_sector_fault, fsinfo_fault, validate_boot_sector_impl, validate_fsinfo,
};
use vstd::prelude::*;
use vstd::slice::slice_subrange;

verus! {

/// The sector size that the bytes at the start of a volume declare: the
/// error where they are too few to be a boot sector or declare a size that
/// FAT32 does not allow.
pub open spec fn declared_sector_size(data: Seq<u8>) -> Result<u16, Error> {
    if data.len() < layout::MIN_SECTOR_SIZE {
        Err(Error::BootSectorValidation(BootSectorFault::TooSmall(data.len() as usize)))
    } else if !layout::is_sector_size(layout::bytes_per_sector(data) as int) {
        Err(Error::UnsupportedSectorSize(layout::bytes_per_sector(data) as u32))
    } else {
        Ok(layout::bytes_per_sector(data))
    }
}

/// The boot sector at the start of `data`, cut to the sector size that it
/// declares, or the first error that applies.
pub open spec fn parsed_boot_sector(data: Seq<u8>, allow_invalidated: bool) -> Result<
    Seq<u8>,
    Error,
> {
    match declared_sector_size(data) {
        Err(e) => Err(e),
        Ok(size) => if data.len() < size {
            Err(Error::BootSectorValidation(BootSectorFault::TooSmall(data.len() as usize)))
        } else {
            match boot_sector_fault(data.subrange(0, size as int), allow_invalidated) {
                Some(e) => Err(e),
                None => Ok(data.subrange(0, size as int)),
            }
        },
    }
}

/// The sector size that the first bytes of a volume declare.
pub fn boot_sector_size(data: &[u8]) -> (r: Result<u16, Error>)
    ensures
        r == declared_sector_size(data@),
{
    let boot = match BootSector::from_bytes(data) {
        Ok(boot) => boot,
        Err(e) => {
            return Err(e);
        },
    };
    let sector_size: u16 = boot.bytes_per_sector();
    if !(sector_size == 512 || sector_size == 1024 || sector_size == 2048 || sector_size == 4096) {
        return Err(Error::UnsupportedSectorSize(sector_size as u32));
    }
    Ok(sector_size)
}

/// Parses and validates the boot sector at the start of `data`, which
/// holds at least the largest sector. The boot sector is cut to the sector
/// size that it declares.
pub fn parse_boot_sector(data: &[u8], allow_invalidated: bool) -> (r: Result<BootSector, Error>)
    ensures
        match parsed_boot_sector(data@, allow_invalidated) {
            Ok(raw) => r.is_ok() && r.unwrap()@ == raw && r.unwrap().wf(),
            Err(e) => r == Err::<BootSector, Error>(e),
        },
{
    let sector_size: u16 = match boot_sector_size(data) {
        Ok(size) => size,
        Err(e) => {
            return Err(e);
        },
    };
    if data.len() < sector_size as usize {
        return Err(Error::BootSectorValidation(BootSectorFault::TooSmall(data.len())));
    }
    let boot = match BootSector::from_bytes(slice_subrange(data, 0, sector_size as usize)) {
        Ok(boot) => boot,
        Err(e) => {
            return Err(e);
        },
    };
    match validate_boot_sector_impl(&boot, allow_invalidated) {
        Ok(()) => Ok(boot),
        Err(e) => Err(e),
    }
}

/// The FSInfo sector in `data`, or the first error that applies.
pub open spec fn parsed_fsinfo(data: Seq<u8>) -> Result<Seq<u8>, Error> {
    if data.len() < layout::MIN_SECTOR_SIZE {
        Err(Error::FSInfoValidation(crate::error::FsInfoFault::TooSmall(data.len() as usize)))
    } else {
        match fsinfo_fault(data) {
            Some(e) => Err(e),
            None => Ok(data),
        }
    }
}

/// Parses and validates an FSInfo sector.
pub fn parse_fsinfo(data: &[u8]) -> (r: Result<FSInfo, Error>)
    ensures
        match parsed_fsinfo(data@) {
            Ok(raw) => r.is_ok() && r.unwrap()@ == raw && r.unwrap().wf(),
            Err(e) => r == Err::<FSInfo, Error>(e),
        },
{
    let fsinfo = match FSInfo::from_bytes(data) {
        Ok(fsinfo) => fsinfo,
        Err(e) => {
            return Err(e);
        },
    };
    match validate_fsinfo(&fsinfo) {
        Ok(()) => Ok(fsinfo),
        Err(e) => Err(e),
    }
}

/// The entries that the bytes of a FAT hold: one for every four bytes.
pub open spec fn fat_entries(data: Seq<u8>) -> Seq<u32> {
    Seq::new(data.len() / 4, |i: int| le_u32(data, 4 * i))
}

/// The bytes that hold a sequence of entries.
pub open spec fn fat_bytes(entries: Seq<u32>) -> Seq<u8> {
    Seq::new(entries.len() * 4, |i: int| u32_le_bytes(entries[i / 4])[i % 4])
}

/// Decoding the bytes of a sequence of entries gives the entries back.
pub proof fn lemma_fat_round_trip(entries: Seq<u32>)
    ensures
        fat_entries(fat_bytes(entries)) == entries,
{
    let data = fat_bytes(entries);
    assert(data.len() / 4 == entries.len());
    assert forall|i: int| 0 <= i < entries.len() implies fat_entries(data)[i] == entries[i] by {
        assert(data.subrange(4 * i, 4 * i + 4) =~= u32_le_bytes(entries[i]));
        layout::lemma_le_u32_at(data, 4 * i, entries[i]);
    }
    assert(fat_entries(data) =~= entries);
}

/// Decodes the bytes of a FAT into its entries.
pub fn decode_fat(data: &[u8]) -> (r: Vec<u32>)
    ensures
        r@ == fat_entries(data@),
{
    let entry_count: usize = data.len() / 4;
    let mut entries: Vec<u32> = Vec::with_capacity(entry_count);
    let mut i: usize = 0;
    while i < entry_count
        invariant
            i <= entry_count,
            entry_count == data@.len() / 4,
            data@.len() <= usize::MAX,
            entries@ == fat_entries(data@).subrange(0, i as int),
        decreases entry_count - i,
    {
        assert(i * 4 + 4 <= data@.len());
        let entry: u32 = read_u32_le(data, i * 4);
        entries.push(entry);
        assert(entries@ =~= fat_entries(data@).subrange(0, i + 1));
        i += 1;
    }
    assert(entries@ =~= fat_entries(data@));
    entries
}

/// Encodes entries into the bytes of a FAT.
pub fn encode_fat(entries: &[u32]) -> (r: Vec<u8>)
    requires
        entries@.len() * 4 <= usize::MAX,
    ensures
        r@ == fat_bytes(entries@),
{
    let mut data: Vec<u8> = Vec::with_capacity(entries.len() * 4);
    let mut i: usize = 0;
    while i < entries.len()
        invariant
            i <= entries@.len(),
            entries@.len() * 4 <= usize::MAX,
            data@ == fat_bytes(entries@).subrange(0, 4 * i),
        decreases entries@.len() - i,
    {
        let x: u32 = entries[i];
        data.push((x % 256) as u8);
        data.push(((x / 256) % 256) as u8);
        data.push(((x / 65536) % 256) as u8);
        data.push((x / 16777216) as u8);
        assert(data@ =~= fat_bytes(entries@).subrange(0, 4 * (i + 1)));
        i += 1;
    }
    assert(data@ =~= fat_bytes(entries@));
    data
}

/// The entry that takes the place of `existing` when `value` is written:
/// the low 28 bits of `value` under the top four bits of `existing`.
pub open spec fn merged_fat_entry(existing: u32, value: u32) -> u32 {
    (value & fat_entry::CLUSTER_MASK) | (existing & fat_entry::RESERVED_MASK)
}

/// Writing a value to an entry keeps the reserved top four bits of the
/// entry as they were, and stores the low 28 bits of the value.
pub fn merge_fat_entry(existing: u32, value: u32) -> (r: u32)
    ensures
        r == merged_fat_entry(existing, value),
        fat_entry::reserved_bits(r) == fat_entry::reserved_bits(existing),
        fat_entry::value(r) == fat_entry::value(value),
{
    let preserved_bits: u32 = existing & 0xF000_0000;
    let new_value: u32 = (value & 0x0FFF_FFFF) | preserved_bits;
    assert(((value & 0x0FFF_FFFF) | (existing & 0xF000_0000)) & 0xF000_0000 == existing
        & 0xF000_0000) by (bit_vector);
    assert(((value & 0x0FFF_FFFF) | (existing & 0xF000_0000)) & 0x0FFF_FFFF == value
        & 0x0FFF_FFFF) by (bit_vector);
    new_value
}

/// Reads the boot sector of the device and validates it. The sector size
/// of the device is set to the one that the boot sector declares, as soon
/// as that is known to be one that FAT32 allows.
pub fn read_boot_sector(device: &mut Device) -> (r: Result<BootSector, Error>)
    requires
        old(device).wf(),
    ensures
        final(device).wf(),
        final(device)@ == old(device)@,
        boot_read_outcome(old(device)@, false, r, final(device).spec_sector_size(), old(device).spec_sector_size()),
{
    read_boot_sector_impl(device, false)
}

/// Reads the boot sector of the device and validates it, accepting the
/// zero signature that an interrupted resize leaves behind.
pub fn read_boot_sector_for_recovery(device: &mut Device) -> (r: Result<BootSector, Error>)
    requires
        old(device).wf(),
    ensures
        final(device).wf(),
        final(device)@ == old(device)@,
        boot_read_outcome(old(device)@, true, r, final(device).spec_sector_size(), old(device).spec_sector_size()),
{
    read_boot_sector_impl(device, true)
}

/// The sector size of a device with bytes `bytes` after its boot sector
/// was read: the size that the boot sector declares, where that is one
/// that FAT32 allows, else the size `old_size` that the device had.
pub open spec fn sector_size_after(bytes: Seq<u8>, old_size: u32) -> u32 {
    if bytes.len() < layout::MAX_SECTOR_SIZE {
        old_size
    } else {
        match declared_sector_size(bytes.subrange(0, layout::MAX_SECTOR_SIZE as int)) {
            Ok(size) => size as u32,
            Err(_) => old_size,
        }
    }
}

/// What reading the boot sector of a device with bytes `bytes` gives: the
/// result `r` and the sector size `new_size` of the device afterwards,
/// which was `old_size` before.
pub open spec fn boot_read_outcome(
    bytes: Seq<u8>,
    allow_invalidated: bool,
    r: Result<BootSector, Error>,
    new_size: u32,
    old_size: u32,
) -> bool {
    &&& new_size == sector_size_after(bytes, old_size)
    &&& if bytes.len() < layout::MAX_SECTOR_SIZE {
        r == Err::<BootSector, Error>(Error::Io(IoFault::OutOfRange))
    } else {
        match parsed_boot_sector(bytes.subrange(0, layout::MAX_SECTOR_SIZE as int), allow_invalidated) {
            Ok(raw) => r.is_ok() && r.unwrap()@ == raw && r.unwrap().wf(),
            Err(e) => r == Err::<BootSector, Error>(e),
        }
    }
}

fn read_boot_sector_impl(device: &mut Device, allow_invalidated: bool) -> (r: Result<
    BootSector,
    Error,
>)
    requires
        old(device).wf(),
    ensures
        final(device).wf(),
        final(device)@ == old(device)@,
        boot_read_outcome(
            old(device)@,
            allow_invalidated,
            r,
            final(device).spec_sector_size(),
            old(device).spec_sector_size(),
        ),
{
    let data = match device.read_bytes_at(0, layout::MAX_SECTOR_SIZE) {
        Ok(data) => data,
        Err(e) => {
            return Err(e);
        },
    };
    let sector_size: u16 = match boot_sector_size(data.as_slice()) {
        Ok(size) => size,
        Err(e) => {
            return Err(e);
        },
    };
    device.set_sector_size(sector_size as u32);
    parse_boot_sector(data.as_slice(), allow_invalidated)
}

/// Reads the backup boot sector from sector `sector`. It is not
/// validated.
pub fn read_backup_boot_sector(device: &Device, sector: u16) -> (r: Result<BootSector, Error>)
    requires
        device.wf(),
    ensures
        match sector_bytes(device@, device.spec_sector_size(), sector as int) {
            None => r == Err::<BootSector, Error>(Error::Io(IoFault::OutOfRange)),
            Some(data) => if data.len() < layout::MIN_SECTOR_SIZE {
                r == Err::<BootSector, Error>(
                    Error::BootSectorValidation(BootSectorFault::TooSmall(data.len() as usize)),
                )
            } else {
                r.is_ok() && r.unwrap()@ == data && r.unwrap().wf()
            },
        },
{
    match device.read_sector(sector as u64) {
        Ok(data) => BootSector::from_bytes(data.as_slice()),
        Err(e) => Err(e),
    }
}

/// The bytes of sector `sector` of a device, where the whole sector lies
/// on the device.
pub open spec fn sector_bytes(bytes: Seq<u8>, sector_size: u32, sector: int) -> Option<Seq<u8>> {
    if in_range(bytes.len() as int, sector * sector_size, sector_size as int) {
        Some(bytes.subrange(sector * sector_size, sector * sector_size + sector_size))
    } else {
        None
    }
}

/// Reads the FSInfo sector from sector `sector` and validates it.
pub fn read_fsinfo(device: &Device, sector: u16) -> (r: Result<FSInfo, Error>)
    requires
        device.wf(),
    ensures
        match sector_bytes(device@, device.spec_sector_size(), sector as int) {
            None => r == Err::<FSInfo, Error>(Error::Io(IoFault::OutOfRange)),
            Some(data) => match parsed_fsinfo(data) {
                Ok(raw) => r.is_ok() && r.unwrap()@ == raw && r.unwrap().wf(),
                Err(e) => r == Err::<FSInfo, Error>(e),
            },
        },
{
    match device.read_sector(sector as u64) {
        Ok(data) => parse_fsinfo(data.as_slice()),
        Err(e) => Err(e),
    }
}

/// What writing the one sector `data` to sector `sector` does to a device
/// whose bytes were `before` and are `after`, with result `r`.
pub open spec fn sector_write_outcome(
    before: Seq<u8>,
    sector_size: u32,
    sector: int,
    data: Seq<u8>,
    after: Seq<u8>,
    r: Result<(), Error>,
) -> bool {
    if data.len() != sector_size {
        r == Err::<(), Error>(Error::Io(IoFault::InvalidInput)) && after == before
    } else if !in_range(before.len() as int, sector * sector_size, sector_size as int) {
        r == Err::<(), Error>(Error::Io(IoFault::OutOfRange)) && after == before
    } else {
        r.is_ok() && after == overwrite(before, sector * sector_size, data)
    }
}

/// Writes the boot sector to sector 0.
pub fn write_boot_sector(device: &mut Device, boot: &BootSector) -> (r: Result<(), Error>)
    requires
        old(device).wf(),
    ensures
        final(device).wf(),
        final(device).spec_sector_size() == old(device).spec_sector_size(),
        sector_write_outcome(old(device)@, old(device).spec_sector_size(), 0, boot@, final(device)@, r),
{
    device.write_sector(0, boot.as_bytes())
}

/// Writes the boot sector to the backup sector `sector`.
pub fn write_backup_boot_sector(device: &mut Device, boot: &BootSector, sector: u16) -> (r: Result<
    (),
    Error,
>)
    requires
        old(device).wf(),
    ensures
        final(device).wf(),
        final(device).spec_sector_size() == old(device).spec_sector_size(),
        sector_write_outcome(
            old(device)@,
            old(device).spec_sector_size(),
            sector as int,
            boot@,
            final(device)@,
            r,
        ),
{
    device.write_sector(sector as u64, boot.as_bytes())
}

/// Writes the FSInfo sector to sector `sector`.
pub fn write_fsinfo(device: &mut Device, fsinfo: &FSInfo, sector: u16) -> (r: Result<(), Error>)
    requires
        old(device).wf(),
    ensures
        final(device).wf(),
        final(device).spec_sector_size() == old(device).spec_sector_size(),
        sector_write_outcome(
            old(device)@,
            old(device).spec_sector_size(),
            sector as int,
            fsinfo@,
            final(device)@,
            r,
        ),
{
    device.write_sector(sector as u64, fsinfo.as_bytes())
}

/// The byte at which FAT copy `fat_number` starts, for FATs of `fat_size`
/// sectors, on a device with sectors of `sector_size` bytes.
pub open spec fn fat_offset(raw: Seq<u8>, sector_size: u32, fat_number: int, fat_size: int) -> int {
    (layout::reserved_sectors(raw) + fat_number * fat_size) * sector_size
}

/// The byte `extra` bytes into FAT copy `fat_number`, or `None` where
/// that is more than 64 bits can hold.
fn fat_byte_offset(
    boot: &BootSector,
    sector_size: u32,
    fat_number: u8,
    fat_size: u32,
    extra: u64,
) -> (r: Option<u64>)
    requires
        boot.wf(),
    ensures
        match r {
            Some(offset) => offset == fat_offset(
                boot@,
                sector_size,
                fat_number as int,
                fat_size as int,
            ) + extra,
            None => fat_offset(boot@, sector_size, fat_number as int, fat_size as int) + extra
                > u64::MAX,
        },
{
    assert(fat_number * fat_size <= 255 * 0xFFFF_FFFF) by (nonlinear_arith)
        requires
            fat_number <= 255,
            fat_size <= 0xFFFF_FFFF,
    ;
    let fat_start: u64 = boot.first_fat_sector() + (fat_number as u64 * fat_size as u64);
    match fat_start.checked_mul(sector_size as u64) {
        Some(start) => start.checked_add(extra),
        None => None,
    }
}

/// Reads one whole copy of the FAT into memory.
pub fn read_fat_table(device: &Device, boot: &BootSector, fat_number: u8) -> (r: Result<
    Vec<u32>,
    Error,
>)
    requires
        device.wf(),
        boot.wf(),
        layout::fat_size(boot@) * device.spec_sector_size() <= usize::MAX,
    ensures
        ({
            let offset = fat_offset(
                boot@,
                device.spec_sector_size(),
                fat_number as int,
                layout::fat_size(boot@) as int,
            );
            let len = layout::fat_size(boot@) * device.spec_sector_size();
            if in_range(device@.len() as int, offset, len) {
                r.is_ok() && r.unwrap()@ == fat_entries(device@.subrange(offset, offset + len))
            } else {
                r == Err::<Vec<u32>, Error>(Error::Io(IoFault::OutOfRange))
            }
        }),
{
    let fat_size: u32 = boot.fat_size();
    assert(fat_number * fat_size <= 255 * 0xFFFF_FFFF) by (nonlinear_arith)
        requires
            fat_number <= 255,
            fat_size <= 0xFFFF_FFFF,
    ;
    let fat_start: u64 = boot.first_fat_sector() + (fat_number as u64 * fat_size as u64);
    match device.read_sectors(fat_start, fat_size) {
        Ok(data) => Ok(decode_fat(data.as_slice())),
        Err(e) => Err(e),
    }
}

/// Writes `entries` into FAT copy `fat_number` from entry `start_entry`
/// on. The entries are written as they are, reserved bits included.
pub fn write_fat_entries(
    device: &mut Device,
    boot: &BootSector,
    fat_number: u8,
    start_entry: u32,
    entries: &[u32],
) -> (r: Result<(), Error>)
    requires
        old(device).wf(),
        boot.wf(),
        entries@.len() * 4 <= usize::MAX,
    ensures
        final(device).wf(),
        final(device).spec_sector_size() == old(device).spec_sector_size(),
        ({
            let offset = fat_offset(
                boot@,
                old(device).spec_sector_size(),
                fat_number as int,
                layout::fat_size(boot@) as int,
            ) + start_entry * 4;
            if in_range(old(device)@.len() as int, offset, (entries@.len() * 4) as int) {
                r.is_ok() && final(device)@ == overwrite(old(device)@, offset, fat_bytes(entries@))
            } else {
                r == Err::<(), Error>(Error::Io(IoFault::OutOfRange)) && final(device)@ == old(
                    device,
                )@
            }
        }),
{
    let offset: u64 = match fat_byte_offset(
        boot,
        device.sector_size(),
        fat_number,
        boot.fat_size(),
        start_entry as u64 * 4,
    ) {
        Some(offset) => offset,
        None => {
            return Err(Error::Io(IoFault::OutOfRange));
        },
    };
    let data: Vec<u8> = encode_fat(entries);
    device.write_bytes_at(offset, data.as_slice())
}

/// The byte at which the entry of `cluster` lies in FAT copy `fat_number`.
pub open spec fn fat_entry_offset(
    raw: Seq<u8>,
    sector_size: u32,
    fat_number: int,
    fat_size: int,
    cluster: int,
) -> int {
    fat_offset(raw, sector_size, fat_number, fat_size) + cluster * 4
}

/// Reads the entry of `cluster` from the first FAT.
pub fn read_fat_entry(device: &Device, boot: &BootSector, cluster: u32) -> (r: Result<u32, Error>)
    requires
        device.wf(),
        boot.wf(),
    ensures
        ({
            let offset = fat_entry_offset(boot@, device.spec_sector_size(), 0, 0, cluster as int);
            if in_range(device@.len() as int, offset, 4) {
                r == Ok::<u32, Error>(le_u32(device@, offset))
            } else {
                r == Err::<u32, Error>(Error::Io(IoFault::OutOfRange))
            }
        }),
{
    let offset: u64 = match fat_byte_offset(boot, device.sector_size(), 0, 0, cluster as u64 * 4) {
        Some(offset) => offset,
        None => {
            return Err(Error::Io(IoFault::OutOfRange));
        },
    };
    match device.read_bytes_at(offset, 4) {
        Ok(data) => {
            assert(le_u32(data@, 0) == le_u32(device@, offset as int));
            Ok(read_u32_le(data.as_slice(), 0))
        },
        Err(e) => Err(e),
    }
}

/// The bytes of a device after the entry of `cluster` has been set to
/// `value` in the FAT copies `from .. num_fats`, each of `fat_size`
/// sectors; the reserved bits of each entry stay.
pub open spec fn with_fat_entry(
    bytes: Seq<u8>,
    raw: Seq<u8>,
    sector_size: u32,
    fat_size: int,
    cluster: int,
    value: u32,
    from: int,
) -> Seq<u8>
    decreases layout::num_fats(raw) - from,
{
    if from >= layout::num_fats(raw) {
        bytes
    } else {
        let offset = fat_entry_offset(raw, sector_size, from, fat_size, cluster);
        if !in_range(bytes.len() as int, offset, 4) {
            bytes
        } else {
            with_fat_entry(
                overwrite(bytes, offset, u32_le_bytes(merged_fat_entry(le_u32(bytes, offset), value))),
                raw,
                sector_size,
                fat_size,
                cluster,
                value,
                from + 1,
            )
        }
    }
}

/// Whether the entry of `cluster` lies on the device in every FAT copy
/// from `from` on.
pub open spec fn fat_entry_on_device(
    size: int,
    raw: Seq<u8>,
    sector_size: u32,
    fat_size: int,
    cluster: int,
    from: int,
) -> bool {
    forall|k: int|
        from <= k < layout::num_fats(raw) ==> in_range(
            size,
            #[trigger] fat_entry_offset(raw, sector_size, k, fat_size, cluster),
            4,
        )
}

/// The entries of one cluster in two FAT copies lie apart, where a FAT
/// holds at least one entry.
pub proof fn lemma_fat_copies_apart(
    raw: Seq<u8>,
    sector_size: u32,
    fat_size: int,
    cluster: int,
    i: int,
    j: int,
)
    requires
        0 <= i < j,
        fat_size * sector_size >= 4,
    ensures
        fat_entry_offset(raw, sector_size, i, fat_size, cluster) + 4 <= fat_entry_offset(
            raw,
            sector_size,
            j,
            fat_size,
            cluster,
        ),
{
    let r = layout::reserved_sectors(raw) as int;
    let step = fat_size * sector_size;
    assert((r + j * fat_size) * sector_size == (r + i * fat_size) * sector_size + (j - i) * step)
        by (nonlinear_arith)
        requires
            step == fat_size * sector_size,
    ;
    assert((j - i) * step >= step) by (nonlinear_arith)
        requires
            j - i >= 1,
            step >= 0,
    ;
}

/// Setting the entry of a cluster in the FAT copies from `from` on leaves
/// alone every byte before the entry in copy `from`.
pub proof fn lemma_fat_entry_write_keeps_lower(
    bytes: Seq<u8>,
    raw: Seq<u8>,
    sector_size: u32,
    fat_size: int,
    cluster: int,
    value: u32,
    from: int,
)
    requires
        0 <= from,
        0 <= cluster,
        0 <= fat_size,
        fat_size * sector_size >= 4,
    ensures
        with_fat_entry(bytes, raw, sector_size, fat_size, cluster, value, from).len()
            == bytes.len(),
        forall|p: int|
            0 <= p < bytes.len() && p < fat_entry_offset(raw, sector_size, from, fat_size, cluster)
                ==> #[trigger] with_fat_entry(
                bytes,
                raw,
                sector_size,
                fat_size,
                cluster,
                value,
                from,
            )[p] == bytes[p],
    decreases layout::num_fats(raw) - from,
{
    if from < layout::num_fats(raw) {
        let offset = fat_entry_offset(raw, sector_size, from, fat_size, cluster);
        if in_range(bytes.len() as int, offset, 4) {
            let next = overwrite(
                bytes,
                offset,
                u32_le_bytes(merged_fat_entry(le_u32(bytes, offset), value)),
            );
            lemma_fat_copies_apart(raw, sector_size, fat_size, cluster, from, from + 1);
            lemma_fat_entry_write_keeps_lower(
                next,
                raw,
                sector_size,
                fat_size,
                cluster,
                value,
                from + 1,
            );
        }
    }
}

/// Writing a value to the entry of a cluster keeps the reserved top four
/// bits of the entry exactly, in every FAT copy, and stores the low 28 bits
/// of the value there.
pub proof fn lemma_fat_entry_write_keeps_reserved_bits(
    bytes: Seq<u8>,
    raw: Seq<u8>,
    sector_size: u32,
    fat_size: int,
    cluster: int,
    value: u32,
    from: int,
    copy: int,
)
    requires
        0 <= from <= copy < layout::num_fats(raw),
        0 <= cluster,
        0 <= fat_size,
        fat_size * sector_size >= 4,
        fat_entry_on_device(bytes.len() as int, raw, sector_size, fat_size, cluster, from),
    ensures
        ({
            let after = with_fat_entry(bytes, raw, sector_size, fat_size, cluster, value, from);
            let offset = fat_entry_offset(raw, sector_size, copy, fat_size, cluster);
            &&& le_u32(after, offset) == merged_fat_entry(le_u32(bytes, offset), value)
            &&& fat_entry::reserved_bits(le_u32(after, offset)) == fat_entry::reserved_bits(
                le_u32(bytes, offset),
            )
            &&& fat_entry::value(le_u32(after, offset)) == fat_entry::value(value)
        }),
    decreases layout::num_fats(raw) - from,
{
    let here = fat_entry_offset(raw, sector_size, from, fat_size, cluster);
    let offset = fat_entry_offset(raw, sector_size, copy, fat_size, cluster);
    assert(in_range(bytes.len() as int, here, 4));
    assert(in_range(bytes.len() as int, offset, 4));
    let merged = merged_fat_entry(le_u32(bytes, here), value);
    let next = overwrite(bytes, here, u32_le_bytes(merged));
    layout::lemma_overwrite_u32(bytes, here, merged);
    let after = with_fat_entry(bytes, raw, sector_size, fat_size, cluster, value, from);
    assert(after == with_fat_entry(next, raw, sector_size, fat_size, cluster, value, from + 1));
    if from == copy {
        lemma_fat_copies_apart(raw, sector_size, fat_size, cluster, from, from + 1);
        lemma_fat_entry_write_keeps_lower(
            next,
            raw,
            sector_size,
            fat_size,
            cluster,
            value,
            from + 1,
        );
        assert(after[offset] == next[offset]);
        assert(after[offset + 1] == next[offset + 1]);
        assert(after[offset + 2] == next[offset + 2]);
        assert(after[offset + 3] == next[offset + 3]);
        let existing = le_u32(bytes, offset);
        assert(((value & 0x0FFF_FFFF) | (existing & 0xF000_0000)) & 0xF000_0000 == existing
            & 0xF000_0000) by (bit_vector);
        assert(((value & 0x0FFF_FFFF) | (existing & 0xF000_0000)) & 0x0FFF_FFFF == value
            & 0x0FFF_FFFF) by (bit_vector);
    } else {
        lemma_fat_copies_apart(raw, sector_size, fat_size, cluster, from, copy);
        assert(next[offset] == bytes[offset]);
        assert(next[offset + 1] == bytes[offset + 1]);
        assert(next[offset + 2] == bytes[offset + 2]);
        assert(next[offset + 3] == bytes[offset + 3]);
        assert forall|k: int| from + 1 <= k < layout::num_fats(raw) implies in_range(
            next.len() as int,
            #[trigger] fat_entry_offset(raw, sector_size, k, fat_size, cluster),
            4,
        ) by {}
        lemma_fat_entry_write_keeps_reserved_bits(
            next,
            raw,
            sector_size,
            fat_size,
            cluster,
            value,
            from + 1,
            copy,
        );
    }
}

/// Sets the entry of `cluster` to `value` in every FAT copy, keeping the
/// reserved top four bits of each entry.
pub fn write_fat_entry(device: &mut Device, boot: &BootSector, cluster: u32, value: u32) -> (r:
    Result<(), Error>)
    requires
        old(device).wf(),
        boot.wf(),
    ensures
        final(device).wf(),
        final(device).spec_sector_size() == old(device).spec_sector_size(),
        final(device)@ == with_fat_entry(
            old(device)@,
            boot@,
            old(device).spec_sector_size(),
            layout::fat_size(boot@) as int,
            cluster as int,
            value,
            0,
        ),
        r.is_ok() <==> fat_entry_on_device(
            old(device)@.len() as int,
            boot@,
            old(device).spec_sector_size(),
            layout::fat_size(boot@) as int,
            cluster as int,
            0,
        ),
        r.is_err() ==> r == Err::<(), Error>(Error::Io(IoFault::OutOfRange)),
{
    write_fat_entry_with_size(device, boot, cluster, value, boot.fat_size())
}

/// Sets the entry of `cluster` to `value` in every FAT copy, for FATs of
/// `fat_size` sectors, keeping the reserved top four bits of each entry.
/// A resize needs this while the boot sector still holds the old FAT size.
pub fn write_fat_entry_with_size(
    device: &mut Device,
    boot: &BootSector,
    cluster: u32,
    value: u32,
    fat_size: u32,
) -> (r: Result<(), Error>)
    requires
        old(device).wf(),
        boot.wf(),
    ensures
        final(device).wf(),
        final(device).spec_sector_size() == old(device).spec_sector_size(),
        final(device)@ == with_fat_entry(
            old(device)@,
            boot@,
            old(device).spec_sector_size(),
            fat_size as int,
            cluster as int,
            value,
            0,
        ),
        r.is_ok() <==> fat_entry_on_device(
            old(device)@.len() as int,
            boot@,
            old(device).spec_sector_size(),
            fat_size as int,
            cluster as int,
            0,
        ),
        r.is_err() ==> r == Err::<(), Error>(Error::Io(IoFault::OutOfRange)),
{
    let num_fats: u8 = boot.num_fats();
    let ghost size = old(device)@.len() as int;
    let ghost ss = old(device).spec_sector_size();
    let mut fat_num: u8 = 0;
    while fat_num < num_fats
        invariant
            fat_num <= num_fats,
            num_fats == layout::num_fats(boot@),
            boot.wf(),
            device.wf(),
            device.spec_sector_size() == ss,
            ss == old(device).spec_sector_size(),
            size == old(device)@.len(),
            device@.len() == size,
            fat_entry_on_device(size, boot@, ss, fat_size as int, cluster as int, 0)
                <==> fat_entry_on_device(size, boot@, ss, fat_size as int, cluster as int, fat_num as int),
            with_fat_entry(old(device)@, boot@, ss, fat_size as int, cluster as int, value, 0)
                == with_fat_entry(device@, boot@, ss, fat_size as int, cluster as int, value, fat_num as int),
            forall|k: int| 0 <= k < fat_num ==> in_range(size, #[trigger] fat_entry_offset(boot@, ss, k, fat_size as int, cluster as int), 4),
        decreases num_fats - fat_num,
    {
        let offset: u64 = match fat_byte_offset(
            boot,
            device.sector_size(),
            fat_num,
            fat_size,
            cluster as u64 * 4,
        ) {
            Some(offset) => offset,
            None => {
                return Err(Error::Io(IoFault::OutOfRange));
            },
        };
        assert(offset == fat_entry_offset(boot@, ss, fat_num as int, fat_size as int, cluster as int));
        let existing: u32 = match device.read_bytes_at(offset, 4) {
            Ok(data) => {
                assert(le_u32(data@, 0) == le_u32(device@, offset as int));
                read_u32_le(data.as_slice(), 0)
            },
            Err(e) => {
                return Err(e);
            },
        };
        let merged: u32 = merge_fat_entry(existing, value);
        let mut bytes: Vec<u8> = vec![0u8; 4];
        write_u32_le(&mut bytes, 0, merged);
        assert(bytes@ =~= u32_le_bytes(merged));
        match device.write_bytes_at(offset, bytes.as_slice()) {
            Ok(()) => {},
            Err(e) => {
                return Err(e);
            },
        }
        fat_num += 1;
    }
    Ok(())
}

/// Reads the data of a cluster.
pub fn read_cluster(device: &Device, boot: &BootSector, cluster: u32) -> (r: Result<Vec<u8>, Error>)
    requires
        device.wf(),
        boot.wf(),
        layout::bytes_per_sector(boot@) != 0,
        cluster >= 2,
        layout::sectors_per_cluster(boot@) * device.spec_sector_size() <= usize::MAX,
    ensures
        ({
            let offset = layout::cluster_to_sector(boot@, cluster as int)
                * device.spec_sector_size();
            let len = layout::sectors_per_cluster(boot@) * device.spec_sector_size();
            if in_range(device@.len() as int, offset, len) {
                r.is_ok() && r.unwrap()@ == device@.subrange(offset, offset + len)
            } else {
                r == Err::<Vec<u8>, Error>(Error::Io(IoFault::OutOfRange))
            }
        }),
{
    let first_sector: u64 = boot.cluster_to_sector(cluster);
    let sectors_per_cluster: u32 = boot.sectors_per_cluster() as u32;
    device.read_sectors(first_sector, sectors_per_cluster)
}

/// Writes the data of a cluster. `data` must be exactly one cluster long.
pub fn write_cluster(device: &mut Device, boot: &BootSector, cluster: u32, data: &[u8]) -> (r:
    Result<(), Error>)
    requires
        old(device).wf(),
        boot.wf(),
        layout::bytes_per_sector(boot@) != 0,
        cluster >= 2,
    ensures
        final(device).wf(),
        final(device).spec_sector_size() == old(device).spec_sector_size(),
        ({
            let offset = layout::cluster_to_sector(boot@, cluster as int) * old(
                device,
            ).spec_sector_size();
            if data@.len() != layout::bytes_per_cluster(boot@) {
                r == Err::<(), Error>(Error::Io(IoFault::InvalidInput)) && final(device)@ == old(
                    device,
                )@
            } else if in_range(old(device)@.len() as int, offset, data@.len() as int) {
                r.is_ok() && final(device)@ == overwrite(old(device)@, offset, data@)
            } else {
                r == Err::<(), Error>(Error::Io(IoFault::OutOfRange)) && final(device)@ == old(
                    device,
                )@
            }
        }),
{
    let first_sector: u64 = boot.cluster_to_sector(cluster);
    let expected_size: u32 = boot.bytes_per_cluster();
    if data.len() as u64 != expected_size as u64 {
        return Err(Error::Io(IoFault::InvalidInput));
    }
    device.write_sectors(first_sector, data)
}

/// Whether `cluster` is a free cluster that the FAT in memory covers.
pub open spec fn is_free_cluster(fat: Seq<u32>, cluster: int) -> bool {
    0 <= cluster < fat.len() && fat_entry::spec_is_free(fat[cluster])
}

/// Whether no cluster in `lo .. hi` is free.
pub open spec fn none_free(fat: Seq<u32>, lo: int, hi: int) -> bool {
    forall|c: int| lo <= c < hi ==> !is_free_cluster(fat, c)
}

/// Finds a free cluster: the first from `start` up to the last cluster of
/// the volume, or else the first from cluster 2 up to `start`.
pub fn find_free_cluster(boot: &BootSector, fat: &[u32], start: u32) -> (r: Option<u32>)
    requires
        boot.wf(),
        layout::geometry_defined(boot@),
        layout::data_clusters(boot@) + 2 <= u32::MAX,
    ensures
        ({
            let max = layout::data_clusters(boot@) + 2;
            match r {
                Some(c) => {
                    &&& is_free_cluster(fat@, c as int)
                    &&& if start <= c {
                        c < max && none_free(fat@, start as int, c as int)
                    } else {
                        2 <= c && none_free(fat@, start as int, max) && none_free(
                            fat@,
                            2,
                            c as int,
                        )
                    }
                },
                None => none_free(fat@, start as int, max) && none_free(fat@, 2, start as int),
            }
        }),
{
    let max_cluster: u32 = boot.data_clusters() + 2;
    let mut cluster: u32 = start;
    while cluster < max_cluster
        invariant
            start <= cluster,
            none_free(fat@, start as int, cluster as int),
            max_cluster == layout::data_clusters(boot@) + 2,
        decreases max_cluster - cluster,
    {
        if (cluster as usize) < fat.len() && fat_entry::is_free(fat[cluster as usize]) {
            return Some(cluster);
        }
        cluster += 1;
    }
    let mut low: u32 = 2;
    while low < start
        invariant
            2 <= low,
            none_free(fat@, 2, low as int),
            none_free(fat@, start as int, max_cluster as int),
            max_cluster == layout::data_clusters(boot@) + 2,
        decreases start - low,
    {
        if (low as usize) < fat.len() && fat_entry::is_free(fat[low as usize]) {
            return Some(low);
        }
        low += 1;
    }
    None
}

/// The number of free entries among the entries `lo .. hi` of a FAT.
pub open spec fn free_entries(fat: Seq<u32>, lo: int, hi: int) -> int
    decreases hi - lo,
{
    if hi <= lo {
        0
    } else {
        free_entries(fat, lo, hi - 1) + if fat_entry::spec_is_free(fat[hi - 1]) {
            1int
        } else {
            0int
        }
    }
}

/// Counts the free clusters among the first `max_cluster` data clusters,
/// as far as the FAT in memory covers them.
pub fn count_free_clusters(fat: &[u32], max_cluster: u32) -> (r: u32)
    requires
        fat@.len() >= 2,
        max_cluster + 2 <= u32::MAX,
    ensures
        r == free_entries(
            fat@,
            2,
            if fat@.len() < max_cluster + 2 {
                fat@.len() as int
            } else {
                max_cluster + 2
            },
        ),
{
    let limit: usize = (max_cluster + 2) as usize;
    let end: usize = if fat.len() < limit {
        fat.len()
    } else {
        limit
    };
    let mut count: u32 = 0;
    let mut i: usize = 2;
    while i < end
        invariant
            2 <= i <= end,
            end <= fat@.len(),
            end <= max_cluster + 2,
            count == free_entries(fat@, 2, i as int),
            count <= i - 2,
        decreases end - i,
    {
        if fat_entry::is_free(fat[i]) {
            count += 1;
        }
        i += 1;
    }
    count
}

} // verus!
