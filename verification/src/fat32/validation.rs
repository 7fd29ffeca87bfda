//! Validation of the boot sector and of the FSInfo sector.

use crate::error::{BootSectorFault, Error, Fat32Fault, FsInfoFault};
use crate::fat32::layout;
use crate::fat32::structs::{
    fsinfo_lead_sig, fsinfo_struc_sig, fsinfo_trail_sig, BootSector, FSInfo,
};
use vstd::prelude::*;

verus! {

/// Whether `spc` is a power of two in 1..=128.
pub open spec fn is_cluster_size(spc: u8) -> bool {
    spc == 1 || spc == 2 || spc == 4 || spc == 8 || spc == 16 || spc == 32 || spc == 64 || spc
        == 128
}

/// Whether `media` is a media type that FAT allows: 0xF0 or 0xF8..=0xFF.
pub open spec fn is_media_type(media: u8) -> bool {
    media == 0xF0 || media >= 0xF8
}

/// Whether the boot signature is acceptable: the valid one, or zero where
/// an invalidated boot sector is allowed.
pub open spec fn signature_accepted(raw: Seq<u8>, allow_invalidated: bool) -> bool {
    layout::boot_signature(raw) == layout::VALID_SIGNATURE || (allow_invalidated
        && layout::boot_signature(raw) == 0)
}

/// The data cluster count that validation judges: the derived count, or 0
/// where the boot sector declares fewer sectors than its metadata takes.
pub open spec fn judged_cluster_count(raw: Seq<u8>) -> int {
    if layout::data_sectors(raw) >= 0 {
        layout::data_clusters(raw)
    } else {
        0
    }
}

/// Everything that makes the fields of a boot sector those of a clean
/// FAT32 volume, the signature aside.
pub open spec fn is_fat32_geometry(raw: Seq<u8>) -> bool {
    &&& layout::is_sector_size(layout::bytes_per_sector(raw) as int)
    &&& is_cluster_size(layout::sectors_per_cluster(raw))
    &&& layout::reserved_sectors(raw) >= 1
    &&& 1 <= layout::num_fats(raw) <= 2
    &&& layout::root_entry_count(raw) == 0
    &&& layout::total_sectors_16(raw) == 0
    &&& layout::fat_size_16(raw) == 0
    &&& layout::total_sectors_32(raw) > 0
    &&& layout::fat_size_32(raw) > 0
    &&& layout::root_cluster(raw) >= 2
    &&& is_media_type(layout::media_type(raw))
    &&& judged_cluster_count(raw) >= layout::MIN_FAT32_CLUSTERS
}

/// The first rule that the boot sector breaks, in the order in which the
/// rules are checked; `None` where it breaks none.
pub open spec fn boot_sector_fault(raw: Seq<u8>, allow_invalidated: bool) -> Option<Error> {
    if !signature_accepted(raw, allow_invalidated) {
        Some(Error::BootSectorValidation(BootSectorFault::Signature(layout::boot_signature(raw))))
    } else if !layout::is_sector_size(layout::bytes_per_sector(raw) as int) {
        Some(
            Error::BootSectorValidation(
                BootSectorFault::BytesPerSector(layout::bytes_per_sector(raw)),
            ),
        )
    } else if !is_cluster_size(layout::sectors_per_cluster(raw)) {
        Some(
            Error::BootSectorValidation(
                BootSectorFault::SectorsPerCluster(layout::sectors_per_cluster(raw)),
            ),
        )
    } else if layout::reserved_sectors(raw) == 0 {
        Some(Error::BootSectorValidation(BootSectorFault::ReservedSectors))
    } else if !(1 <= layout::num_fats(raw) <= 2) {
        Some(Error::BootSectorValidation(BootSectorFault::FatCount(layout::num_fats(raw))))
    } else if layout::root_entry_count(raw) != 0 {
        Some(Error::InvalidFAT32(Fat32Fault::RootEntryCount))
    } else if layout::total_sectors_16(raw) != 0 {
        Some(Error::InvalidFAT32(Fat32Fault::TotalSectors16))
    } else if layout::fat_size_16(raw) != 0 {
        Some(Error::InvalidFAT32(Fat32Fault::FatSize16))
    } else if layout::total_sectors_32(raw) == 0 {
        Some(Error::BootSectorValidation(BootSectorFault::TotalSectors))
    } else if layout::fat_size_32(raw) == 0 {
        Some(Error::BootSectorValidation(BootSectorFault::FatSize))
    } else if layout::root_cluster(raw) < 2 {
        Some(Error::BootSectorValidation(BootSectorFault::RootCluster(layout::root_cluster(raw))))
    } else if !is_media_type(layout::media_type(raw)) {
        Some(Error::BootSectorValidation(BootSectorFault::MediaType(layout::media_type(raw))))
    } else if judged_cluster_count(raw) < layout::MIN_FAT32_CLUSTERS {
        Some(Error::InvalidFAT32(Fat32Fault::ClusterCount(judged_cluster_count(raw) as u32)))
    } else {
        None
    }
}

/// A boot sector breaks no rule exactly when its signature is accepted and
/// its fields are those of a FAT32 volume.
pub proof fn lemma_no_fault_iff_valid(raw: Seq<u8>, allow_invalidated: bool)
    ensures
        boot_sector_fault(raw, allow_invalidated).is_none() <==> signature_accepted(
            raw,
            allow_invalidated,
        ) && is_fat32_geometry(raw),
{
}

/// On a boot sector with FAT32 geometry the derived values are defined,
/// the data area starts right behind the FATs, and every cluster count and
/// sector number fits in 32 bits.
pub proof fn lemma_fat32_geometry_defined(raw: Seq<u8>)
    requires
        is_fat32_geometry(raw),
    ensures
        layout::geometry_defined(raw),
        layout::root_dir_sectors(raw) == 0,
        layout::total_sectors(raw) == layout::total_sectors_32(raw),
        layout::fat_size(raw) == layout::fat_size_32(raw),
        layout::first_data_sector(raw) == layout::reserved_sectors(raw) + layout::num_fats(raw)
            * layout::fat_size_32(raw),
        layout::MIN_FAT32_CLUSTERS <= layout::data_clusters(raw),
        layout::data_clusters(raw) + 2 <= u32::MAX,
        layout::data_clusters(raw) * layout::sectors_per_cluster(raw) <= layout::data_sectors(raw),
        layout::first_data_sector(raw) <= layout::total_sectors_32(raw),
{
    let bps = layout::bytes_per_sector(raw) as int;
    assert(layout::root_dir_sectors(raw) == (bps - 1) / bps);
    assert((bps - 1) / bps == 0);
    let spc = layout::sectors_per_cluster(raw) as int;
    if layout::data_sectors(raw) < 0 {
        assert(judged_cluster_count(raw) == 0);
    }
    let nf = layout::num_fats(raw) as int;
    let fs = layout::fat_size_32(raw) as int;
    assert(nf * fs >= 1) by (nonlinear_arith)
        requires
            nf >= 1,
            fs >= 1,
    ;
    let ds = layout::data_sectors(raw);
    assert(ds / spc <= ds && (ds / spc) * spc <= ds) by (nonlinear_arith)
        requires
            spc >= 1,
            ds >= 0,
    ;
}

/// Validates a boot sector as that of a FAT32 volume.
pub fn validate_boot_sector(boot: &BootSector) -> (r: Result<(), Error>)
    requires
        boot.wf(),
    ensures
        match boot_sector_fault(boot@, false) {
            Some(e) => r == Err::<(), Error>(e),
            None => r.is_ok(),
        },
        r.is_ok() <==> layout::boot_signature(boot@) == layout::VALID_SIGNATURE
            && is_fat32_geometry(boot@),
{
    validate_boot_sector_impl(boot, false)
}

/// Validates a boot sector as that of a FAT32 volume, and accepts a zero
/// boot signature, which an interrupted resize leaves behind.
pub fn validate_boot_sector_for_recovery(boot: &BootSector) -> (r: Result<(), Error>)
    requires
        boot.wf(),
    ensures
        match boot_sector_fault(boot@, true) {
            Some(e) => r == Err::<(), Error>(e),
            None => r.is_ok(),
        },
        r.is_ok() <==> signature_accepted(boot@, true) && is_fat32_geometry(boot@),
{
    validate_boot_sector_impl(boot, true)
}

/// Checks the rules of a FAT32 boot sector in their fixed order and
/// reports the first that is broken.
pub fn validate_boot_sector_impl(boot: &BootSector, allow_invalidated: bool) -> (r: Result<
    (),
    Error,
>)
    requires
        boot.wf(),
    ensures
        match boot_sector_fault(boot@, allow_invalidated) {
            Some(e) => r == Err::<(), Error>(e),
            None => r.is_ok(),
        },
        r.is_ok() <==> signature_accepted(boot@, allow_invalidated) && is_fat32_geometry(boot@),
{
    let sig: u16 = boot.boot_signature();
    if sig != layout::VALID_SIGNATURE {
        if allow_invalidated && sig == 0x0000 {
        } else {
            return Err(Error::BootSectorValidation(BootSectorFault::Signature(sig)));
        }
    }
    let bps: u16 = boot.bytes_per_sector();
    if !(bps == 512 || bps == 1024 || bps == 2048 || bps == 4096) {
        return Err(Error::BootSectorValidation(BootSectorFault::BytesPerSector(bps)));
    }
    let spc: u8 = boot.sectors_per_cluster();
    if !(spc == 1 || spc == 2 || spc == 4 || spc == 8 || spc == 16 || spc == 32 || spc == 64
        || spc == 128) {
        return Err(Error::BootSectorValidation(BootSectorFault::SectorsPerCluster(spc)));
    }
    if boot.reserved_sectors() == 0 {
        return Err(Error::BootSectorValidation(BootSectorFault::ReservedSectors));
    }
    let num_fats: u8 = boot.num_fats();
    if num_fats == 0 || num_fats > 2 {
        return Err(Error::BootSectorValidation(BootSectorFault::FatCount(num_fats)));
    }
    if boot.root_entry_count() != 0 {
        return Err(Error::InvalidFAT32(Fat32Fault::RootEntryCount));
    }
    if boot.total_sectors_16() != 0 {
        return Err(Error::InvalidFAT32(Fat32Fault::TotalSectors16));
    }
    if boot.fat_size_16() != 0 {
        return Err(Error::InvalidFAT32(Fat32Fault::FatSize16));
    }
    if boot.total_sectors_32() == 0 {
        return Err(Error::BootSectorValidation(BootSectorFault::TotalSectors));
    }
    if boot.fat_size_32() == 0 {
        return Err(Error::BootSectorValidation(BootSectorFault::FatSize));
    }
    let root_cluster: u32 = boot.root_cluster();
    if root_cluster < 2 {
        return Err(Error::BootSectorValidation(BootSectorFault::RootCluster(root_cluster)));
    }
    let media: u8 = boot.media_type();
    if media != 0xF0 && media < 0xF8 {
        return Err(Error::BootSectorValidation(BootSectorFault::MediaType(media)));
    }
    let first_data: u64 = boot.first_data_sector();
    let total: u64 = boot.total_sectors() as u64;
    let cluster_count: u32 = if total >= first_data {
        boot.data_clusters()
    } else {
        0
    };
    if cluster_count < layout::MIN_FAT32_CLUSTERS {
        return Err(Error::InvalidFAT32(Fat32Fault::ClusterCount(cluster_count)));
    }
    Ok(())
}

/// Whether the three signatures of an FSInfo sector are the fixed ones.
pub open spec fn fsinfo_signatures_ok(raw: Seq<u8>) -> bool {
    &&& fsinfo_lead_sig(raw) == FSInfo::LEAD_SIG
    &&& fsinfo_struc_sig(raw) == FSInfo::STRUC_SIG
    &&& fsinfo_trail_sig(raw) == FSInfo::TRAIL_SIG
}

/// The first wrong signature of an FSInfo sector, lead before structure
/// before trail; `None` where all three are right.
pub open spec fn fsinfo_fault(raw: Seq<u8>) -> Option<Error> {
    if fsinfo_lead_sig(raw) != FSInfo::LEAD_SIG {
        Some(Error::FSInfoValidation(FsInfoFault::LeadSignature(fsinfo_lead_sig(raw))))
    } else if fsinfo_struc_sig(raw) != FSInfo::STRUC_SIG {
        Some(Error::FSInfoValidation(FsInfoFault::StructSignature(fsinfo_struc_sig(raw))))
    } else if fsinfo_trail_sig(raw) != FSInfo::TRAIL_SIG {
        Some(Error::FSInfoValidation(FsInfoFault::TrailSignature(fsinfo_trail_sig(raw))))
    } else {
        None
    }
}

/// Validates the three signatures of an FSInfo sector.
pub fn validate_fsinfo(fsinfo: &FSInfo) -> (r: Result<(), Error>)
    requires
        fsinfo.wf(),
    ensures
        match fsinfo_fault(fsinfo@) {
            Some(e) => r == Err::<(), Error>(e),
            None => r.is_ok(),
        },
        r.is_ok() <==> fsinfo_signatures_ok(fsinfo@),
{
    let lead: u32 = fsinfo.lead_sig();
    if lead != FSInfo::LEAD_SIG {
        return Err(Error::FSInfoValidation(FsInfoFault::LeadSignature(lead)));
    }
    let struc: u32 = fsinfo.struc_sig();
    if struc != FSInfo::STRUC_SIG {
        return Err(Error::FSInfoValidation(FsInfoFault::StructSignature(struc)));
    }
    let trail: u32 = fsinfo.trail_sig();
    if trail != FSInfo::TRAIL_SIG {
        return Err(Error::FSInfoValidation(FsInfoFault::TrailSignature(trail)));
    }
    Ok(())
}

/// Whether two boot sectors agree on every geometry field. The volume
/// serial number and label are not compared.
pub fn boot_sectors_match(primary: &BootSector, backup: &BootSector) -> (r: bool)
    requires
        primary.wf(),
        backup.wf(),
    ensures
        r == layout::same_geometry(primary@, backup@),
{
    primary.bytes_per_sector() == backup.bytes_per_sector() && primary.sectors_per_cluster()
        == backup.sectors_per_cluster() && primary.reserved_sectors() == backup.reserved_sectors()
        && primary.num_fats() == backup.num_fats() && primary.total_sectors_32()
        == backup.total_sectors_32() && primary.fat_size_32() == backup.fat_size_32()
        && primary.root_cluster() == backup.root_cluster() && primary.fs_info_sector()
        == backup.fs_info_sector() && primary.backup_boot_sector() == backup.backup_boot_sector()
}

} // verus!
