//! Read-only inspection of a FAT32 volume: its geometry, its free-cluster
//! hint, and whether the device leaves it room to grow.

use crate::device::Device;
use crate::error::{Error, IoFault};
use crate::fat32::layout;
use crate::fat32::operations::{
    parsed_boot_sector, parsed_fsinfo, read_backup_boot_sector, read_boot_sector, read_fsinfo,
    sector_bytes, sector_size_after,
};
use crate::fat32::structs::{fsinfo_free_count, BootSector, FSInfo};
use crate::fat32::validation::{
    boot_sectors_match, is_fat32_geometry, lemma_fat32_geometry_defined,
    lemma_no_fault_iff_valid,
};
use vstd::prelude::*;
use vstd::string::StringExecFns;

verus! {

/// What inspection found of a FAT32 volume.
#[derive(Debug)]
pub struct FSInfoReport {
    pub device_path: String,
    pub bytes_per_sector: u16,
    pub sectors_per_cluster: u8,
    pub reserved_sectors: u16,
    pub num_fats: u8,
    pub fat_size_sectors: u32,
    pub total_sectors: u32,
    pub data_clusters: u32,
    pub root_cluster: u32,
    pub fsinfo_sector: u16,
    pub backup_boot_sector: u16,
    /// The free-cluster hint of the FSInfo sector.
    pub free_clusters: u32,
    /// Whether the backup boot sector agrees with the primary on the
    /// geometry.
    pub backup_matches: bool,
    /// The number of whole sectors of the device.
    pub device_sectors: u64,
    /// Whether the device has more sectors than the volume.
    pub can_grow: bool,
    /// The size of the volume in bytes.
    pub current_size_bytes: u64,
    /// The size in bytes that the volume can grow to, where it can grow.
    pub max_new_size_bytes: Option<u64>,
}

/// A report as contracts see it.
pub struct ReportModel {
    pub device_path: Seq<char>,
    pub bytes_per_sector: u16,
    pub sectors_per_cluster: u8,
    pub reserved_sectors: u16,
    pub num_fats: u8,
    pub fat_size_sectors: u32,
    pub total_sectors: u32,
    pub data_clusters: u32,
    pub root_cluster: u32,
    pub fsinfo_sector: u16,
    pub backup_boot_sector: u16,
    pub free_clusters: u32,
    pub backup_matches: bool,
    pub device_sectors: u64,
    pub can_grow: bool,
    pub current_size_bytes: u64,
    pub max_new_size_bytes: Option<u64>,
}

impl View for FSInfoReport {
    type V = ReportModel;

    open spec fn view(&self) -> ReportModel {
        ReportModel {
            device_path: self.device_path@,
            bytes_per_sector: self.bytes_per_sector,
            sectors_per_cluster: self.sectors_per_cluster,
            reserved_sectors: self.reserved_sectors,
            num_fats: self.num_fats,
            fat_size_sectors: self.fat_size_sectors,
            total_sectors: self.total_sectors,
            data_clusters: self.data_clusters,
            root_cluster: self.root_cluster,
            fsinfo_sector: self.fsinfo_sector,
            backup_boot_sector: self.backup_boot_sector,
            free_clusters: self.free_clusters,
            backup_matches: self.backup_matches,
            device_sectors: self.device_sectors,
            can_grow: self.can_grow,
            current_size_bytes: self.current_size_bytes,
            max_new_size_bytes: self.max_new_size_bytes,
        }
    }
}

/// The report on a volume with boot sector `boot` and FSInfo sector
/// `fsinfo` on a device of `device_sectors` sectors.
pub open spec fn report_of(
    device_path: Seq<char>,
    boot: Seq<u8>,
    backup_matches: bool,
    fsinfo: Seq<u8>,
    device_sectors: u64,
) -> ReportModel {
    let can_grow = device_sectors > layout::total_sectors(boot);
    ReportModel {
        device_path,
        bytes_per_sector: layout::bytes_per_sector(boot),
        sectors_per_cluster: layout::sectors_per_cluster(boot),
        reserved_sectors: layout::reserved_sectors(boot),
        num_fats: layout::num_fats(boot),
        fat_size_sectors: layout::fat_size(boot),
        total_sectors: layout::total_sectors(boot),
        data_clusters: layout::data_clusters(boot) as u32,
        root_cluster: layout::root_cluster(boot),
        fsinfo_sector: layout::fs_info_sector(boot),
        backup_boot_sector: layout::backup_boot_sector(boot),
        free_clusters: fsinfo_free_count(fsinfo),
        backup_matches,
        device_sectors,
        can_grow,
        current_size_bytes: (layout::total_sectors(boot) * layout::bytes_per_sector(boot)) as u64,
        max_new_size_bytes: if can_grow {
            Some((device_sectors * layout::bytes_per_sector(boot)) as u64)
        } else {
            None
        },
    }
}

/// Puts the report together from the sectors that were read.
pub fn build_report(
    device_path: &str,
    boot: &BootSector,
    backup_matches: bool,
    fsinfo: &FSInfo,
    device_sectors: u64,
) -> (r: FSInfoReport)
    requires
        boot.wf(),
        is_fat32_geometry(boot@),
        fsinfo.wf(),
        device_sectors * layout::bytes_per_sector(boot@) <= u64::MAX,
    ensures
        r@ == report_of(device_path@, boot@, backup_matches, fsinfo@, device_sectors),
{
    proof {
        lemma_fat32_geometry_defined(boot@);
    }
    let bps: u16 = boot.bytes_per_sector();
    let current_sectors: u32 = boot.total_sectors();
    let can_grow: bool = device_sectors > current_sectors as u64;
    let max_new_size: Option<u64> = if can_grow {
        Some(device_sectors * bps as u64)
    } else {
        None
    };
    assert(current_sectors * bps <= 0xFFFF_FFFF * 0xFFFF) by (nonlinear_arith)
        requires
            current_sectors <= 0xFFFF_FFFF,
            bps <= 0xFFFF,
    ;
    FSInfoReport {
        device_path: String::from_str(device_path),
        bytes_per_sector: bps,
        sectors_per_cluster: boot.sectors_per_cluster(),
        reserved_sectors: boot.reserved_sectors(),
        num_fats: boot.num_fats(),
        fat_size_sectors: boot.fat_size(),
        total_sectors: current_sectors,
        data_clusters: boot.data_clusters(),
        root_cluster: boot.root_cluster(),
        fsinfo_sector: boot.fs_info_sector(),
        backup_boot_sector: boot.backup_boot_sector(),
        free_clusters: fsinfo.free_count(),
        backup_matches,
        device_sectors,
        can_grow,
        current_size_bytes: current_sectors as u64 * bps as u64,
        max_new_size_bytes: max_new_size,
    }
}

/// What inspection of a device with bytes `image` gives: the report, or
/// the first error on the way to it.
pub open spec fn fs_info_outcome(image: Seq<u8>, device_path: Seq<char>) -> Result<
    ReportModel,
    Error,
> {
    if image.len() < layout::MAX_SECTOR_SIZE {
        Err(Error::Io(IoFault::OutOfRange))
    } else {
        match parsed_boot_sector(image.subrange(0, layout::MAX_SECTOR_SIZE as int), false) {
            Err(e) => Err(e),
            Ok(boot) => {
                let bps = layout::bytes_per_sector(boot) as u32;
                match sector_bytes(image, bps, layout::backup_boot_sector(boot) as int) {
                    None => Err(Error::Io(IoFault::OutOfRange)),
                    Some(backup) => match sector_bytes(
                        image,
                        bps,
                        layout::fs_info_sector(boot) as int,
                    ) {
                        None => Err(Error::Io(IoFault::OutOfRange)),
                        Some(data) => match parsed_fsinfo(data) {
                            Err(e) => Err(e),
                            Ok(fsinfo) => Ok(
                                report_of(
                                    device_path,
                                    boot,
                                    layout::same_geometry(boot, backup),
                                    fsinfo,
                                    (image.len() / (bps as nat)) as u64,
                                ),
                            ),
                        },
                    },
                }
            },
        }
    }
}

/// Inspects the FAT32 volume on the device without changing a byte of it.
/// The sector size of the device is set to the one that the boot sector
/// declares, as soon as that is known to be one that FAT32 allows.
pub fn get_fs_info(device: &mut Device, device_path: &str) -> (r: Result<FSInfoReport, Error>)
    requires
        old(device).wf(),
    ensures
        final(device).wf(),
        final(device)@ == old(device)@,
        final(device).spec_sector_size() == sector_size_after(
            old(device)@,
            old(device).spec_sector_size(),
        ),
        match fs_info_outcome(old(device)@, device_path@) {
            Ok(report) => r.is_ok() && r.unwrap()@ == report,
            Err(e) => r == Err::<FSInfoReport, Error>(e),
        },
{
    let boot = match read_boot_sector(device) {
        Ok(boot) => boot,
        Err(e) => {
            return Err(e);
        },
    };
    proof {
        lemma_no_fault_iff_valid(boot@, false);
        let data = device@.subrange(0, layout::MAX_SECTOR_SIZE as int);
        assert(boot@[11] == data[11]);
        assert(boot@[12] == data[12]);
    }
    let backup = match read_backup_boot_sector(device, boot.backup_boot_sector()) {
        Ok(backup) => backup,
        Err(e) => {
            return Err(e);
        },
    };
    let backup_matches: bool = boot_sectors_match(&boot, &backup);
    let fsinfo = match read_fsinfo(device, boot.fs_info_sector()) {
        Ok(fsinfo) => fsinfo,
        Err(e) => {
            return Err(e);
        },
    };
    let device_sectors: u64 = device.total_sectors();
    assert(device_sectors * layout::bytes_per_sector(boot@) <= device@.len()) by (nonlinear_arith)
        requires
            device_sectors == device@.len() as int / layout::bytes_per_sector(boot@) as int,
            layout::bytes_per_sector(boot@) > 0,
    ;
    Ok(build_report(device_path, &boot, backup_matches, &fsinfo, device_sectors))
}

} // verus!
