use fat32expander::device::{DeviceOp, ProtocolPoint};
use fat32expander::error::{CalculationFault, IoFault};
use fat32expander::fat32::{validate_boot_sector, BootSector, FSInfo};
use fat32expander::resize::{
    calculate_new_size, get_fs_info, resize_fat32, ResizeCheckpoint, ResizeOptions, ResizePhase,
    ResizePlan, ResizeSession, SizeCalculation, Stage,
};
use fat32expander::{Device, Error};

const MIB: usize = 1024 * 1024;
const SECTOR: usize = 512;
const RESERVED: usize = 32;

/// The clusters that hold data in every test volume, with their FAT
/// entries: the root directory, a chain of three, a bad cluster, a lone
/// cluster with reserved bits set, and the last cluster of the volume.
fn used_clusters(data_clusters: u32) -> Vec<(u32, u32)> {
    vec![
        (2, 0x0FFFFFFF),
        (3, 4),
        (4, 5),
        (5, 0x0FFFFFF8),
        (50, 0x0FFFFFF7),
        (100, 0xA0000065),
        (101, 0x0FFFFFFF),
        (data_clusters + 1, 0x0FFFFFFF),
    ]
}

fn pattern(cluster: u32, i: usize) -> u8 {
    ((cluster as usize * 31 + i * 7 + 1) % 251) as u8
}

fn boot_sector_bytes(total_sectors: u32, fat_size: u32) -> Vec<u8> {
    let mut data = vec![0u8; SECTOR];
    data[0] = 0xEB;
    data[1] = 0x58;
    data[2] = 0x90;
    data[3..11].copy_from_slice(b"MSDOS5.0");
    data[11..13].copy_from_slice(&(SECTOR as u16).to_le_bytes());
    data[13] = 1; // sectors per cluster
    data[14..16].copy_from_slice(&(RESERVED as u16).to_le_bytes());
    data[16] = 2; // FATs
    data[21] = 0xF8;
    data[32..36].copy_from_slice(&total_sectors.to_le_bytes());
    data[36..40].copy_from_slice(&fat_size.to_le_bytes());
    data[44..48].copy_from_slice(&2u32.to_le_bytes());
    data[48] = 1; // FSInfo sector
    data[50] = 6; // backup boot sector
    data[67..71].copy_from_slice(&0xCAFE_F00Du32.to_le_bytes());
    data[71..82].copy_from_slice(b"TESTVOLUME ");
    data[82..90].copy_from_slice(b"FAT32   ");
    data[510] = 0x55;
    data[511] = 0xAA;
    data
}

/// A FAT32 volume of `total_sectors` sectors with FATs of `fat_size`
/// sectors, on a device of `device_bytes` bytes.
fn make_image(total_sectors: u32, fat_size: u32, device_bytes: usize, free_count: u32) -> Vec<u8> {
    let mut image = vec![0u8; device_bytes];
    let boot = boot_sector_bytes(total_sectors, fat_size);
    image[0..SECTOR].copy_from_slice(&boot);
    image[6 * SECTOR..7 * SECTOR].copy_from_slice(&boot);
    let info = SECTOR;
    image[info..info + 4].copy_from_slice(&FSInfo::LEAD_SIG.to_le_bytes());
    image[info + 484..info + 488].copy_from_slice(&FSInfo::STRUC_SIG.to_le_bytes());
    image[info + 488..info + 492].copy_from_slice(&free_count.to_le_bytes());
    image[info + 492..info + 496].copy_from_slice(&102u32.to_le_bytes());
    image[info + 508..info + 512].copy_from_slice(&FSInfo::TRAIL_SIG.to_le_bytes());
    let first_data = RESERVED + 2 * fat_size as usize;
    let data_clusters = total_sectors - first_data as u32;
    for fat in 0..2 {
        let start = (RESERVED + fat * fat_size as usize) * SECTOR;
        image[start..start + 4].copy_from_slice(&0x0FFFFFF8u32.to_le_bytes());
        image[start + 4..start + 8].copy_from_slice(&0x0FFFFFFFu32.to_le_bytes());
        for (cluster, entry) in used_clusters(data_clusters) {
            let at = start + cluster as usize * 4;
            image[at..at + 4].copy_from_slice(&entry.to_le_bytes());
        }
    }
    for (cluster, _) in used_clusters(data_clusters) {
        let at = (first_data + cluster as usize - 2) * SECTOR;
        for i in 0..SECTOR {
            image[at + i] = pattern(cluster, i);
        }
    }
    image
}

fn options(dry_run: bool) -> ResizeOptions {
    ResizeOptions { device_path: "image".to_string(), dry_run, verbose: false }
}

fn resize(image: Vec<u8>, dry_run: bool) -> (Result<fat32expander::ResizeResult, Error>, Vec<u8>) {
    let mut device = Device::from_image(image);
    let result = resize_fat32(&mut device, &options(dry_run));
    (result, device.into_image())
}

/// Runs a session against the device, without writing, up to its plan.
fn plan_for(device: &Device) -> Result<ResizePlan, Error> {
    let mut session = ResizeSession::new(device.size_bytes().unwrap(), false);
    while let Some((offset, len)) = session.pending_read() {
        let data = device.read_bytes_at(offset, len as usize)?;
        session = session.advance(&data)?;
    }
    Ok(session.finish().unwrap())
}

/// The device after a run that is cut off right behind `point`.
fn crash_at(image: Vec<u8>, point: ProtocolPoint) -> Vec<u8> {
    let mut device = Device::from_image(image);
    let plan = plan_for(&device).unwrap();
    let mut reached = false;
    for op in &plan.ops {
        device.apply(op).unwrap();
        if *op == DeviceOp::Reached(point) {
            reached = true;
            break;
        }
    }
    assert!(reached);
    device.into_image()
}

fn check_cluster_content(image: &[u8], first_data: usize, data_clusters: u32) {
    for (cluster, _) in used_clusters(data_clusters) {
        let at = (first_data + cluster as usize - 2) * SECTOR;
        for i in 0..SECTOR {
            assert_eq!(image[at + i], pattern(cluster, i), "cluster {} byte {}", cluster, i);
        }
    }
}

const OLD_TOTAL: u32 = (128 * MIB / SECTOR) as u32; // 262 144
const OLD_FAT: u32 = 2032; // what the formula gives for 128 MiB
const OLD_CLUSTERS: u32 = OLD_TOTAL - 32 - 2 * OLD_FAT; // 258 048

#[test]
fn test_resize_without_fat_growth() {
    // a volume of 128 MiB whose FATs are as long as 150 MiB need
    let fat = 2382;
    let old_clusters = OLD_TOTAL - 32 - 2 * fat;
    let image = make_image(OLD_TOTAL, fat, 150 * MIB, 1000);
    let mut device = Device::from_image(image.clone());
    let info_before = get_fs_info(&mut device, "image").unwrap();
    assert!(info_before.can_grow);
    let (result, after) = resize(image.clone(), false);
    let result = result.unwrap();
    assert!(result.new_size_bytes > result.old_size_bytes);
    let mut device = Device::from_image(after.clone());
    let info_after = get_fs_info(&mut device, "image").unwrap();
    assert!(!info_after.can_grow, "Should be at max size now");
    let new_total = (150 * MIB / SECTOR) as u32;
    assert_eq!(result.old_size_bytes, 128 * MIB as u64);
    assert_eq!(result.new_size_bytes, 150 * MIB as u64);
    assert!(!result.fat_grew);
    assert_eq!(result.clusters_relocated, 0);
    assert_eq!(result.calculation.new_fat_size, fat);
    assert_eq!(result.calculation.new_data_clusters, new_total - 32 - 2 * fat);
    assert_eq!(
        result.operations,
        vec![
            "Read boot sector (512-byte sectors)",
            "Verified backup boot sector at sector 6",
            "Read FSInfo from sector 1",
            "Calculated resize: 262144 -> 307200 sectors",
            "Read FAT table (304896 entries)",
            "Updated boot sector (signature restored)",
            "Updated backup boot sector",
            "Updated FSInfo (free clusters: 46056)",
            "Cleared checkpoint",
            "Synced changes to disk",
        ]
    );
    // only the boot sector, its backup and the FSInfo sector have changed
    let boot = BootSector::from_bytes(&after[..SECTOR]).unwrap();
    assert!(validate_boot_sector(&boot).is_ok());
    assert_eq!(boot.total_sectors_32(), new_total);
    assert_eq!(boot.fat_size_32(), fat);
    assert_eq!(boot.data_clusters(), new_total - 32 - 2 * fat);
    assert_eq!(&after[6 * SECTOR..7 * SECTOR], &after[..SECTOR]);
    let info = FSInfo::from_bytes(&after[SECTOR..2 * SECTOR]).unwrap();
    assert_eq!(info.free_count(), 1000 + (new_total - 32 - 2 * fat - old_clusters));
    assert_eq!(info.next_free(), 102);
    for i in 0..after.len() {
        let changed = (32..36).contains(&i)
            || (6 * SECTOR + 32..6 * SECTOR + 36).contains(&i)
            || (SECTOR + 488..SECTOR + 492).contains(&i);
        if !changed {
            assert_eq!(after[i], image[i], "byte {}", i);
        }
    }
    // one resize is enough: the volume now fills the device
    let (again, untouched) = resize(after.clone(), false);
    assert_eq!(again.unwrap_err(), Error::AlreadyMaxSize);
    assert_eq!(untouched, after);
}

#[test]
fn test_resize_with_fat_growth() {
    let image = make_image(OLD_TOTAL, OLD_FAT, 256 * MIB, 258_000);
    let mut device = Device::from_image(image.clone());
    let info_before = get_fs_info(&mut device, "image").unwrap();
    assert!(info_before.can_grow);
    let (result, after) = resize(image.clone(), false);
    let result = result.unwrap();
    assert!(result.new_size_bytes > result.old_size_bytes);
    let new_total = (256 * MIB / SECTOR) as u32;
    let new_fat = 4064;
    let new_clusters = new_total - 32 - 2 * new_fat;
    assert!(result.fat_grew);
    assert_eq!(result.clusters_relocated, 8);
    // the calculation of the run is the one for the boot sector and the device
    let before = BootSector::from_bytes(&image[..SECTOR]).unwrap();
    assert_eq!(Ok(result.calculation), calculate_new_size(&before, 524_288));
    assert_eq!(result.calculation.old_fat_size, OLD_FAT);
    assert_eq!(result.calculation.new_fat_size, new_fat);
    assert_eq!(result.calculation.fat_growth_sectors, 2032);
    assert_eq!(result.calculation.first_affected_cluster, 2);
    assert_eq!(result.calculation.last_affected_cluster, 4065);
    assert_eq!(result.calculation.new_data_clusters, new_clusters);
    assert!(new_clusters > OLD_CLUSTERS);
    assert_eq!(
        result.operations,
        vec![
            "Read boot sector (512-byte sectors)",
            "Verified backup boot sector at sector 6",
            "Read FSInfo from sector 1",
            "Calculated resize: 262144 -> 524288 sectors",
            "Read FAT table (260096 entries)",
            "FAT needs to grow by 2032 sectors",
            "Planned data shift for 8 clusters (4096 bytes)",
            "Wrote checkpoint (phase 0: started)",
            "Shifted 8 clusters forward",
            "Verified data shift",
            "Updated checkpoint (phase 1: data copied)",
            "Invalidated boot sector (danger zone)",
            "Initialized new FAT sectors",
            "Synced FAT copies",
            "Updated checkpoint (phase 2: FAT written)",
            "Updated boot sector (signature restored)",
            "Updated backup boot sector",
            "Updated FSInfo (free clusters: 516080)",
            "Cleared checkpoint",
            "Synced changes to disk",
        ]
    );
    let boot = BootSector::from_bytes(&after[..SECTOR]).unwrap();
    assert!(validate_boot_sector(&boot).is_ok());
    assert_eq!(boot.total_sectors_32(), new_total);
    assert_eq!(boot.fat_size_32(), new_fat);
    assert_eq!(boot.data_clusters(), new_clusters);
    assert_eq!(boot.volume_id(), 0xCAFE_F00D);
    assert_eq!(boot.volume_label(), b"TESTVOLUME ");
    assert_eq!(&after[6 * SECTOR..7 * SECTOR], &after[..SECTOR]);
    // every cluster in use holds what it held, at its new place
    let first_data = boot.first_data_sector() as usize;
    assert_eq!(first_data, 32 + 2 * 4064);
    check_cluster_content(&after, first_data, OLD_CLUSTERS);
    // the first FAT is as it was, with free entries behind it
    let fat0 = 32 * SECTOR;
    let old_len = OLD_FAT as usize * SECTOR;
    let new_len = new_fat as usize * SECTOR;
    assert_eq!(&after[fat0..fat0 + old_len], &image[fat0..fat0 + old_len]);
    assert!(after[fat0 + old_len..fat0 + new_len].iter().all(|&b| b == 0));
    // the second FAT is its copy
    assert_eq!(&after[fat0 + new_len..fat0 + 2 * new_len], &after[fat0..fat0 + new_len]);
    // the reserved bits of the entry of cluster 100 are still there
    assert_eq!(&after[fat0 + 400..fat0 + 404], &0xA0000065u32.to_le_bytes());
    // the checkpoint is gone
    assert!(after[after.len() - SECTOR..].iter().all(|&b| b == 0));
    let info = FSInfo::from_bytes(&after[SECTOR..2 * SECTOR]).unwrap();
    assert_eq!(info.free_count(), 258_000 + (new_clusters - OLD_CLUSTERS));

    let mut device = Device::from_image(after);
    let report = get_fs_info(&mut device, "image").unwrap();
    assert!(!report.can_grow, "Should be at max size now");
    assert!(report.data_clusters > info_before.data_clusters, "Should have more clusters");
    assert!(report.backup_matches);
    assert_eq!(report.data_clusters, new_clusters);
    assert_eq!(report.total_sectors, new_total);
    assert_eq!(report.fat_size_sectors, new_fat);
    assert_eq!(report.free_clusters, 516_080);
}

#[test]
fn test_already_max_size() {
    let image = make_image(OLD_TOTAL, OLD_FAT, 128 * MIB, 5);
    let (result, after) = resize(image.clone(), false);
    assert!(result.is_err());
    assert_eq!(result.unwrap_err(), Error::AlreadyMaxSize);
    assert_eq!(after, image);
}

/// A volume on which every cluster holds data.
fn full_image(total_sectors: u32, fat_size: u32, device_bytes: usize) -> Vec<u8> {
    let mut image = make_image(total_sectors, fat_size, device_bytes, 0);
    let first_data = 32 + 2 * fat_size as usize;
    let clusters = total_sectors as usize - first_data;
    for fat in 0..2 {
        let start = (32 + fat * fat_size as usize) * SECTOR;
        for cluster in 2..clusters + 2 {
            let at = start + cluster * 4;
            image[at..at + 4].copy_from_slice(&0x0FFFFFFFu32.to_le_bytes());
        }
    }
    for cluster in 2..clusters + 2 {
        let at = (first_data + cluster - 2) * SECTOR;
        image[at..at + 4].copy_from_slice(&(cluster as u32).to_le_bytes());
        image[at + SECTOR - 1] = (cluster % 255) as u8;
    }
    image
}

#[test]
fn test_resize_with_data() {
    // every cluster of the volume holds data
    let image = full_image(OLD_TOTAL, OLD_FAT, 256 * MIB);
    let (result, after) = resize(image, false);
    let result = result.unwrap();
    assert_eq!(result.clusters_relocated, OLD_CLUSTERS as usize);
    let boot = BootSector::from_bytes(&after[..SECTOR]).unwrap();
    assert!(validate_boot_sector(&boot).is_ok());
    let first_data = boot.first_data_sector() as usize;
    for cluster in 2..OLD_CLUSTERS as usize + 2 {
        let at = (first_data + cluster - 2) * SECTOR;
        assert_eq!(&after[at..at + 4], &(cluster as u32).to_le_bytes());
        assert_eq!(after[at + SECTOR - 1], (cluster % 255) as u8);
    }
}

#[test]
fn larger_volume_than_device_is_a_shrink() {
    // a volume of 256 MiB on an image of 128 MiB
    let mut image = make_image((256 * MIB / SECTOR) as u32, 4064, 256 * MIB, 5);
    image.truncate(128 * MIB);
    let (result, after) = resize(image.clone(), false);
    assert_eq!(result.unwrap_err(), Error::ShrinkNotSupported);
    assert_eq!(after, image);
}

#[test]
fn resume_after_crash_behind_boot_invalidation() {
    let image = make_image(OLD_TOTAL, OLD_FAT, 256 * MIB, 258_000);
    let (_, expected) = resize(image.clone(), false);
    let crashed = crash_at(image, ProtocolPoint::AfterBootInvalidate);
    // the second run sees a zero boot signature and a valid checkpoint
    assert_eq!(&crashed[510..512], &[0, 0]);
    let last = &crashed[crashed.len() - SECTOR..];
    let checkpoint = ResizeCheckpoint::from_bytes(last).unwrap().unwrap();
    assert_eq!(
        checkpoint,
        ResizeCheckpoint::new(ResizePhase::DataCopied, OLD_TOTAL, 524_288, OLD_FAT, 4064)
    );
    let mut device = Device::from_image(crashed.clone());
    assert!(matches!(
        get_fs_info(&mut device, "image"),
        Err(Error::BootSectorValidation(_))
    ));
    let (result, after) = resize(crashed, false);
    let result = result.unwrap();
    assert!(result.fat_grew);
    assert_eq!(result.clusters_relocated, 8);
    // the calculation is that of the first run, but for the free clusters
    let before = BootSector::from_bytes(&boot_sector_bytes(OLD_TOTAL, OLD_FAT)).unwrap();
    let first = calculate_new_size(&before, 524_288).unwrap();
    assert_eq!(result.calculation, SizeCalculation { new_free_clusters: 0, ..first });
    assert_eq!(
        result.operations,
        vec![
            "Read boot sector (512-byte sectors)",
            "Detected incomplete resize at phase DataCopied",
            "Verified backup boot sector at sector 6",
            "Read FSInfo from sector 1",
            "Calculated resize: 262144 -> 524288 sectors",
            "Read FAT table (260096 entries)",
            "FAT needs to grow by 2032 sectors",
            "Planned data shift for 8 clusters (4096 bytes)",
            "Skipping data shift (already done)",
            "Invalidated boot sector (danger zone)",
            "Initialized new FAT sectors",
            "Synced FAT copies",
            "Updated checkpoint (phase 2: FAT written)",
            "Updated boot sector (signature restored)",
            "Updated backup boot sector",
            "Updated FSInfo (free clusters: 516080)",
            "Cleared checkpoint",
            "Synced changes to disk",
        ]
    );
    assert!(after == expected);
    let boot = BootSector::from_bytes(&after[..SECTOR]).unwrap();
    assert!(validate_boot_sector(&boot).is_ok());
    check_cluster_content(&after, boot.first_data_sector() as usize, OLD_CLUSTERS);
}

#[test]
fn corrupted_checkpoint_stops_the_resume() {
    let image = make_image(OLD_TOTAL, OLD_FAT, 256 * MIB, 258_000);
    let mut crashed = crash_at(image, ProtocolPoint::AfterBootInvalidate);
    // flip one bit of the CRC
    let crc = crashed.len() - SECTOR + 28;
    crashed[crc] ^= 0x04;
    let (result, after) = resize(crashed.clone(), false);
    assert_eq!(result.unwrap_err(), Error::CheckpointCorrupted);
    // nothing was written
    assert!(after == crashed);
}

#[test]
fn resume_from_every_protocol_point() {
    let image = make_image(OLD_TOTAL, OLD_FAT, 256 * MIB, 258_000);
    let (_, expected) = resize(image.clone(), false);
    for (point, phase, valid) in [
        (ProtocolPoint::AfterCheckpointStart, ResizePhase::Started, true),
        (ProtocolPoint::AfterDataShift, ResizePhase::Started, true),
        (ProtocolPoint::AfterCheckpointDataCopied, ResizePhase::DataCopied, true),
        (ProtocolPoint::AfterBootInvalidate, ResizePhase::DataCopied, false),
        (ProtocolPoint::AfterFatWrite, ResizePhase::DataCopied, false),
        (ProtocolPoint::AfterCheckpointFatWritten, ResizePhase::FatWritten, false),
    ] {
        let crashed = crash_at(image.clone(), point);
        let last = &crashed[crashed.len() - SECTOR..];
        assert_eq!(ResizeCheckpoint::from_bytes(last).unwrap().unwrap().phase, phase);
        let boot = BootSector::from_bytes(&crashed[..SECTOR]).unwrap();
        assert_eq!(boot.is_signature_valid(), valid);
        let (result, after) = resize(crashed, false);
        assert!(result.is_ok(), "{:?}", point);
        assert!(after == expected, "{:?}", point);
    }
}

#[test]
fn test_dry_run() {
    let image = make_image(OLD_TOTAL, OLD_FAT, 256 * MIB, 258_000);
    let (result, after) = resize(image.clone(), true);
    let result = result.unwrap();
    assert!(result.new_size_bytes > result.old_size_bytes);
    assert!(result.fat_grew);
    assert_eq!(result.clusters_relocated, 0);
    assert_eq!(
        result.operations,
        vec![
            "Read boot sector (512-byte sectors)",
            "Verified backup boot sector at sector 6",
            "Read FSInfo from sector 1",
            "Calculated resize: 262144 -> 524288 sectors",
            "Read FAT table (260096 entries)",
            "FAT needs to grow by 2032 sectors",
            "Planned data shift for 8 clusters (4096 bytes)",
            "Dry run: would shift cluster data",
            "Dry run: no changes made",
        ]
    );
    assert!(after == image);
    let mut device = Device::from_image(after);
    let report = get_fs_info(&mut device, "image").unwrap();
    assert_eq!(report.total_sectors, OLD_TOTAL);
    assert_eq!(report.fat_size_sectors, OLD_FAT);
}

#[test]
fn test_info_command() {
    let mut device = Device::from_image(make_image(OLD_TOTAL, OLD_FAT, 128 * MIB, 77));
    let info = get_fs_info(&mut device, "/dev/test").unwrap();
    assert_eq!(info.device_path, "/dev/test");
    assert_eq!(info.bytes_per_sector, 512);
    assert_eq!(info.sectors_per_cluster, 1);
    assert_eq!(info.reserved_sectors, 32);
    assert_eq!(info.num_fats, 2);
    assert_eq!(info.fat_size_sectors, OLD_FAT);
    assert_eq!(info.total_sectors, OLD_TOTAL);
    assert!(info.data_clusters > 65525, "Should be FAT32");
    assert_eq!(info.data_clusters, OLD_CLUSTERS);
    assert_eq!(info.root_cluster, 2);
    assert_eq!(info.fsinfo_sector, 1);
    assert_eq!(info.backup_boot_sector, 6);
    assert_eq!(info.free_clusters, 77);
    assert!(info.backup_matches);
    assert_eq!(info.device_sectors, OLD_TOTAL as u64);
    assert!(!info.can_grow, "Same size should not be growable");
    assert_eq!(info.current_size_bytes, 128 * MIB as u64);
    assert_eq!(info.max_new_size_bytes, None);

    let mut device = Device::from_image(make_image(OLD_TOTAL, OLD_FAT, 150 * MIB, 77));
    let info = get_fs_info(&mut device, "x").unwrap();
    assert!(info.can_grow);
    assert_eq!(info.device_sectors, 307_200);
    assert_eq!(info.max_new_size_bytes, Some(150 * MIB as u64));
    assert_eq!(device.sector_size(), 512);
}

#[test]
fn info_reports_backup_mismatch_and_resize_refuses() {
    let mut image = make_image(OLD_TOTAL, OLD_FAT, 150 * MIB, 77);
    image[6 * SECTOR + 13] = 2; // sectors per cluster of the backup
    let mut device = Device::from_image(image.clone());
    let info = get_fs_info(&mut device, "x").unwrap();
    assert!(!info.backup_matches);
    let (result, after) = resize(image.clone(), false);
    assert_eq!(result.unwrap_err(), Error::BackupMismatch);
    assert!(after == image);
}

#[test]
fn invalidated_boot_sector_without_checkpoint() {
    let mut image = make_image(OLD_TOTAL, OLD_FAT, 150 * MIB, 77);
    image[510] = 0;
    image[511] = 0;
    let (result, after) = resize(image.clone(), false);
    assert_eq!(result.unwrap_err(), Error::InvalidatedFilesystem);
    assert!(after == image);
    // and on a device that has no room for a checkpoint
    let mut image = make_image(OLD_TOTAL, OLD_FAT, 128 * MIB, 77);
    image[510] = 0;
    image[511] = 0;
    let (result, _) = resize(image, false);
    assert_eq!(result.unwrap_err(), Error::InvalidatedFilesystem);
}

#[test]
fn resume_on_a_smaller_device_is_refused() {
    let image = make_image(OLD_TOTAL, OLD_FAT, 256 * MIB, 258_000);
    let mut crashed = crash_at(image, ProtocolPoint::AfterCheckpointFatWritten);
    // the device loses its second half, and the checkpoint moves along
    let checkpoint = crashed[crashed.len() - SECTOR..].to_vec();
    crashed.truncate(200 * MIB);
    let at = crashed.len() - SECTOR;
    crashed[at..].copy_from_slice(&checkpoint);
    let (result, after) = resize(crashed.clone(), false);
    assert_eq!(result.unwrap_err(), Error::ResizeSizeMismatch(2));
    assert!(after == crashed);
}

#[test]
fn fats_grow_where_no_cluster_holds_data() {
    // every entry from cluster 2 on is free; the second FAT holds stale bytes
    let mut image = make_image(OLD_TOTAL, OLD_FAT, 256 * MIB, 258_048);
    for fat in 0..2 {
        let start = (32 + fat * OLD_FAT as usize) * SECTOR;
        for b in &mut image[start + 8..start + OLD_FAT as usize * SECTOR] {
            *b = 0;
        }
    }
    let stale = (32 + 4064 + 100) * SECTOR;
    image[stale] = 0x77;
    let (result, after) = resize(image.clone(), false);
    let result = result.unwrap();
    assert!(result.fat_grew);
    assert_eq!(result.clusters_relocated, 0);
    assert_eq!(
        result.operations,
        vec![
            "Read boot sector (512-byte sectors)",
            "Verified backup boot sector at sector 6",
            "Read FSInfo from sector 1",
            "Calculated resize: 262144 -> 524288 sectors",
            "Read FAT table (260096 entries)",
            "FAT needs to grow by 2032 sectors",
            "Wrote checkpoint (phase 0: started)",
            "Shifted 0 clusters forward",
            "Verified data shift",
            "Updated checkpoint (phase 1: data copied)",
            "Invalidated boot sector (danger zone)",
            "Initialized new FAT sectors",
            "Synced FAT copies",
            "Updated checkpoint (phase 2: FAT written)",
            "Updated boot sector (signature restored)",
            "Updated backup boot sector",
            "Updated FSInfo (free clusters: 516128)",
            "Cleared checkpoint",
            "Synced changes to disk",
        ]
    );
    let boot = BootSector::from_bytes(&after[..SECTOR]).unwrap();
    assert!(validate_boot_sector(&boot).is_ok());
    assert_eq!(boot.fat_size_32(), 4064);
    // the new sectors of the first FAT are free, and the second FAT is its copy
    let fat0 = 32 * SECTOR;
    let new_len = 4064 * SECTOR;
    assert_eq!(&after[fat0..fat0 + 8], &image[fat0..fat0 + 8]);
    assert!(after[fat0 + 8..fat0 + new_len].iter().all(|&b| b == 0));
    assert_eq!(&after[fat0 + new_len..fat0 + 2 * new_len], &after[fat0..fat0 + new_len]);
    assert!(after[after.len() - SECTOR..].iter().all(|&b| b == 0));
    // a dry run names no plan of a shift
    let (dry, untouched) = resize(image.clone(), true);
    let dry = dry.unwrap();
    assert_eq!(dry.operations[5], "FAT needs to grow by 2032 sectors");
    assert_eq!(dry.operations[6], "Dry run: no changes made");
    assert_eq!(dry.operations.len(), 7);
    assert!(untouched == image);
}

#[test]
fn resize_sets_the_sector_size_of_the_device() {
    let mut image = make_image(OLD_TOTAL, OLD_FAT, 150 * MIB, 77);
    let mut device = Device::from_image(image.clone());
    device.set_sector_size(4096);
    assert_eq!(device.total_sectors(), 38_400);
    assert!(resize_fat32(&mut device, &options(true)).is_ok());
    assert_eq!(device.sector_size(), 512);
    assert_eq!(device.total_sectors(), 307_200);
    // the size is set before the boot sector is validated
    image[21] = 0;
    let mut device = Device::from_image(image.clone());
    device.set_sector_size(4096);
    assert!(resize_fat32(&mut device, &options(false)).is_err());
    assert_eq!(device.sector_size(), 512);
    // and stays where the boot sector declares none that FAT32 allows
    image[12] = 3;
    let mut device = Device::from_image(image);
    device.set_sector_size(4096);
    assert!(get_fs_info(&mut device, "x").is_err());
    assert_eq!(device.sector_size(), 4096);
    let mut device = Device::from_image(vec![0u8; 100]);
    assert!(resize_fat32(&mut device, &options(false)).is_err());
    assert_eq!(device.sector_size(), 512);
}

#[test]
fn checkpoint_with_impossible_sizes_is_corrupted() {
    // a record with a valid CRC whose FAT growth no 32-bit cluster range holds
    let mut image = make_image(OLD_TOTAL, OLD_FAT, 150 * MIB, 77);
    let record = ResizeCheckpoint::new(ResizePhase::Started, OLD_TOTAL, 300_000, 0, 0xFFFF_FFFF);
    let at = image.len() - SECTOR;
    image[at..].copy_from_slice(&record.to_bytes(SECTOR));
    let (result, after) = resize(image.clone(), false);
    assert_eq!(result.unwrap_err(), Error::CheckpointCorrupted);
    assert!(after == image);
}

#[test]
fn boot_sector_errors_end_the_run() {
    let mut image = make_image(OLD_TOTAL, OLD_FAT, 150 * MIB, 77);
    image[11] = 0;
    image[12] = 3; // 768 bytes per sector
    let (result, _) = resize(image, false);
    assert_eq!(result.unwrap_err(), Error::UnsupportedSectorSize(768));
    let mut image = make_image(OLD_TOTAL, OLD_FAT, 150 * MIB, 77);
    image[21] = 0; // media type
    let (result, _) = resize(image, false);
    assert!(matches!(result, Err(Error::BootSectorValidation(_))));
    let mut image = make_image(OLD_TOTAL, OLD_FAT, 150 * MIB, 77);
    image[17] = 1; // root entry count
    let (result, _) = resize(image, false);
    assert!(matches!(result, Err(Error::InvalidFAT32(_))));
    let mut image = make_image(OLD_TOTAL, OLD_FAT, 150 * MIB, 77);
    image[SECTOR] = 0; // lead signature of the FSInfo sector
    let (result, _) = resize(image, false);
    assert!(matches!(result, Err(Error::FSInfoValidation(_))));
    // a device too short to hold the largest sector
    let (result, _) = resize(vec![0u8; 1000], false);
    assert_eq!(result.unwrap_err(), Error::Io(IoFault::OutOfRange));
}

#[test]
fn too_few_clusters_after_growth() {
    // 65 525 clusters with FATs of one sector; one sector more, and the
    // formula asks for FATs of 508 sectors
    let total = 32 + 2 + 65_525;
    let mut image = vec![0u8; (total as usize + 1) * SECTOR];
    let small = make_image(total, 1, image.len(), 0);
    image.copy_from_slice(&small);
    let (result, _) = resize(image, false);
    assert_eq!(
        result.unwrap_err(),
        Error::Calculation(CalculationFault::ClusterCount(total + 1 - 32 - 2 * 508))
    );
}

#[test]
fn unknown_free_count_stays_unknown() {
    let image = make_image(OLD_TOTAL, OLD_FAT, 256 * MIB, 0xFFFF_FFFF);
    let (result, after) = resize(image, false);
    assert!(result.is_ok());
    let info = FSInfo::from_bytes(&after[SECTOR..2 * SECTOR]).unwrap();
    assert_eq!(info.free_count(), FSInfo::UNKNOWN_FREE);
    let image = make_image(OLD_TOTAL, OLD_FAT, 256 * MIB, 0xFFFF_FFF0);
    let (_, after) = resize(image, false);
    let info = FSInfo::from_bytes(&after[SECTOR..2 * SECTOR]).unwrap();
    assert_eq!(info.free_count(), 0xFFFF_FFFF);
}

#[test]
fn session_asks_for_the_reads_in_order() {
    let device = Device::from_image(make_image(OLD_TOTAL, OLD_FAT, 256 * MIB, 5));
    let mut session = ResizeSession::new(256 * MIB as u64, false);
    let mut asked = Vec::new();
    while let Some((offset, len)) = session.pending_read() {
        asked.push((session.stage(), offset, len));
        let data = device.read_bytes_at(offset, len as usize).unwrap();
        session = session.advance(&data).unwrap();
    }
    assert_eq!(
        asked,
        vec![
            (Stage::Boot, 0, 4096),
            (Stage::Checkpoint, (256 * MIB - SECTOR) as u64, 512),
            (Stage::Backup, 6 * 512, 512),
            (Stage::FsInfo, 512, 512),
            (Stage::Fat, 32 * 512, 2032 * 512),
        ]
    );
    assert_eq!(session.stage(), Stage::Done);
    let plan = session.finish().unwrap();
    // 3 + 8 moves + 5, then 9 for the FATs, then 5 for the metadata
    assert_eq!(plan.ops.len(), 16 + 9 + 5);
    assert_eq!(plan.ops[3], DeviceOp::Copy {
        from: (32 + 2 * 2032 + 258_047) * 512,
        to: (32 + 2 * 4064 + 258_047) * 512,
        len: 512,
    });
    assert_eq!(plan.ops[10], DeviceOp::Copy {
        from: (32 + 2 * 2032) * 512,
        to: (32 + 2 * 4064) * 512,
        len: 512,
    });
    assert_eq!(plan.ops[19], DeviceOp::Zero { offset: (32 + 2032) * 512, len: 2032 * 512 });
    assert_eq!(plan.ops[20], DeviceOp::Copy {
        from: 32 * 512,
        to: (32 + 4064) * 512,
        len: 4064 * 512,
    });
    assert_eq!(plan.ops[29], DeviceOp::Sync);
}

#[test]
fn session_rejects_bytes_of_the_wrong_length() {
    let session = ResizeSession::new(256 * MIB as u64, false);
    assert_eq!(
        session.advance(&[0u8; 512]).unwrap_err(),
        Error::Io(IoFault::InvalidInput)
    );
    let session = ResizeSession::new(256 * MIB as u64, false);
    assert!(session.finish().is_err());
}

#[test]
fn resume_on_a_full_volume() {
    // 68 882 clusters, all in use, and a shift of 1086 sectors: most moves
    // write over the old place of another cluster
    let image = full_image(70_000, 543, 140_000 * SECTOR);
    let (result, expected) = resize(image.clone(), false);
    let result = result.unwrap();
    assert_eq!(result.calculation.new_fat_size, 1086);
    assert_eq!(result.clusters_relocated, 68_882);
    for point in [
        ProtocolPoint::AfterCheckpointStart,
        ProtocolPoint::AfterCheckpointDataCopied,
        ProtocolPoint::AfterBootInvalidate,
        ProtocolPoint::AfterFatWrite,
        ProtocolPoint::AfterCheckpointFatWritten,
    ] {
        let crashed = crash_at(image.clone(), point);
        let (result, after) = resize(crashed, false);
        assert!(result.is_ok(), "{:?}", point);
        assert!(after == expected, "{:?}", point);
    }
    let boot = BootSector::from_bytes(&expected[..SECTOR]).unwrap();
    let first_data = boot.first_data_sector() as usize;
    for cluster in 2..68_882usize + 2 {
        let at = (first_data + cluster - 2) * SECTOR;
        assert_eq!(&expected[at..at + 4], &(cluster as u32).to_le_bytes());
    }
}

#[test]
fn dry_run_session_reads_no_checkpoint() {
    let device = Device::from_image(make_image(OLD_TOTAL, OLD_FAT, 256 * MIB, 5));
    let mut session = ResizeSession::new(256 * MIB as u64, true);
    let mut stages = Vec::new();
    while let Some((offset, len)) = session.pending_read() {
        stages.push(session.stage());
        let data = device.read_bytes_at(offset, len as usize).unwrap();
        session = session.advance(&data).unwrap();
    }
    assert_eq!(stages, vec![Stage::Boot, Stage::Backup, Stage::FsInfo, Stage::Fat]);
    assert!(session.finish().unwrap().ops.is_empty());
}
