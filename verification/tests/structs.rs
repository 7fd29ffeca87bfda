use fat32expander::fat32::fat_entry;
use fat32expander::fat32::{BootSector, ClusterId, FSInfo, SectorNum};
use fat32expander::Error;

#[test]
fn test_fat_entry_helpers() {
    assert!(fat_entry::is_free(0x00000000));
    assert!(!fat_entry::is_free(0x00000002));

    assert!(fat_entry::is_end_of_chain(0x0FFFFFFF));
    assert!(fat_entry::is_end_of_chain(0x0FFFFFF8));
    assert!(!fat_entry::is_end_of_chain(0x00000002));

    assert!(fat_entry::is_bad(0x0FFFFFF7));
    assert!(!fat_entry::is_bad(0x0FFFFFF8));

    assert!(fat_entry::is_chain(0x00000002));
    assert!(fat_entry::is_chain(0x00001234));
    assert!(!fat_entry::is_chain(0x00000000));
    assert!(!fat_entry::is_chain(0x0FFFFFFF));

    assert_eq!(fat_entry::next_cluster(0x00001234), Some(0x00001234));
    assert_eq!(fat_entry::next_cluster(0xF0001234), Some(0x00001234)); // Upper bits masked
    assert_eq!(fat_entry::next_cluster(0x0FFFFFFF), None);
}

#[test]
fn test_boot_sector_parsing() {
    let mut data = [0u8; 512];

    // Jump instruction
    data[0] = 0xEB;
    data[1] = 0x58;
    data[2] = 0x90;

    // OEM name
    data[3..11].copy_from_slice(b"MSDOS5.0");

    // Bytes per sector (512)
    data[11] = 0x00;
    data[12] = 0x02;

    // Sectors per cluster (8)
    data[13] = 0x08;

    // Reserved sectors (32)
    data[14] = 0x20;
    data[15] = 0x00;

    // Number of FATs (2)
    data[16] = 0x02;

    // Total sectors 32 (1000000)
    let total_sectors: u32 = 1_000_000;
    data[32..36].copy_from_slice(&total_sectors.to_le_bytes());

    // FAT size 32 (7813)
    let fat_size: u32 = 7813;
    data[36..40].copy_from_slice(&fat_size.to_le_bytes());

    // Root cluster (2)
    data[44..48].copy_from_slice(&2u32.to_le_bytes());

    // FSInfo sector (1)
    data[48] = 0x01;

    // Backup boot sector (6)
    data[50] = 0x06;

    // Boot signature
    data[510] = 0x55;
    data[511] = 0xAA;

    let boot = BootSector::from_bytes(&data).unwrap();

    assert_eq!(boot.bytes_per_sector(), 512);
    assert_eq!(boot.sectors_per_cluster(), 8);
    assert_eq!(boot.reserved_sectors(), 32);
    assert_eq!(boot.num_fats(), 2);
    assert_eq!(boot.total_sectors(), 1_000_000);
    assert_eq!(boot.fat_size(), 7813);
    assert_eq!(boot.root_cluster(), 2);
    assert_eq!(boot.fs_info_sector(), 1);
    assert_eq!(boot.backup_boot_sector(), 6);
    assert_eq!(boot.boot_signature(), 0xAA55);
}

#[test]
fn test_fsinfo_parsing() {
    let mut data = [0u8; 512];

    // Lead signature
    data[0..4].copy_from_slice(&FSInfo::LEAD_SIG.to_le_bytes());

    // Structure signature
    data[484..488].copy_from_slice(&FSInfo::STRUC_SIG.to_le_bytes());

    // Free count (12345)
    data[488..492].copy_from_slice(&12345u32.to_le_bytes());

    // Next free (100)
    data[492..496].copy_from_slice(&100u32.to_le_bytes());

    // Trail signature
    data[508..512].copy_from_slice(&FSInfo::TRAIL_SIG.to_le_bytes());

    let fsinfo = FSInfo::from_bytes(&data).unwrap();

    assert_eq!(fsinfo.lead_sig(), FSInfo::LEAD_SIG);
    assert_eq!(fsinfo.struc_sig(), FSInfo::STRUC_SIG);
    assert_eq!(fsinfo.free_count(), 12345);
    assert_eq!(fsinfo.next_free(), 100);
    assert_eq!(fsinfo.trail_sig(), FSInfo::TRAIL_SIG);
}

#[test]
fn boot_sector_rejects_short_buffer() {
    let data = [0u8; 511];
    assert!(matches!(
        BootSector::from_bytes(&data),
        Err(Error::BootSectorValidation(_))
    ));
    let data = [0u8; 100];
    assert!(matches!(FSInfo::from_bytes(&data), Err(Error::FSInfoValidation(_))));
}

#[test]
fn cluster_id_and_sector_num() {
    assert_eq!(ClusterId::new(5).get(), 5);
    assert_eq!(ClusterId::new_checked(1), None);
    assert_eq!(ClusterId::new_checked(2), Some(ClusterId::new(2)));
    assert_eq!(ClusterId::new(7).index(), 5);
    assert_eq!(ClusterId::new(1).index(), 0);
    assert_eq!(SectorNum::new(10).offset(5).get(), 15);
    assert_eq!(SectorNum::new(10).to_byte_offset(512), 5120);
}
