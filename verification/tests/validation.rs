use fat32expander::error::{BootSectorFault, Fat32Fault, FsInfoFault};
use fat32expander::fat32::{
    boot_sectors_match, validate_boot_sector, validate_boot_sector_for_recovery, validate_fsinfo,
    BootSector, FSInfo,
};
use fat32expander::Error;

fn create_valid_fat32_boot_sector() -> [u8; 512] {
    let mut data = [0u8; 512];

    // Jump instruction
    data[0] = 0xEB;
    data[1] = 0x58;
    data[2] = 0x90;

    // OEM name
    data[3..11].copy_from_slice(b"MSDOS5.0");

    // Bytes per sector (512)
    data[11] = 0x00;
    data[12] = 0x02;

    // Sectors per cluster (8)
    data[13] = 0x08;

    // Reserved sectors (32)
    data[14] = 0x20;
    data[15] = 0x00;

    // Number of FATs (2)
    data[16] = 0x02;

    // Root entry count = 0 (FAT32)
    data[17] = 0x00;
    data[18] = 0x00;

    // Total sectors 16 = 0 (FAT32)
    data[19] = 0x00;
    data[20] = 0x00;

    // Media type (0xF8 = hard disk)
    data[21] = 0xF8;

    // FAT size 16 = 0 (FAT32)
    data[22] = 0x00;
    data[23] = 0x00;

    // Total sectors 32 (2000000 - large enough for FAT32)
    let total_sectors: u32 = 2_000_000;
    data[32..36].copy_from_slice(&total_sectors.to_le_bytes());

    // FAT size 32 (7813)
    let fat_size: u32 = 7813;
    data[36..40].copy_from_slice(&fat_size.to_le_bytes());

    // Root cluster (2)
    data[44..48].copy_from_slice(&2u32.to_le_bytes());

    // FSInfo sector (1)
    data[48] = 0x01;

    // Backup boot sector (6)
    data[50] = 0x06;

    // FS type string
    data[82..90].copy_from_slice(b"FAT32   ");

    // Boot signature
    data[510] = 0x55;
    data[511] = 0xAA;

    data
}

#[test]
fn test_valid_boot_sector() {
    let data = create_valid_fat32_boot_sector();
    let boot = BootSector::from_bytes(&data).unwrap();
    assert!(validate_boot_sector(&boot).is_ok());
}

#[test]
fn test_invalid_boot_signature() {
    let mut data = create_valid_fat32_boot_sector();
    data[510] = 0x00; // Invalid signature
    let boot = BootSector::from_bytes(&data).unwrap();
    let result = validate_boot_sector(&boot);
    assert!(matches!(result, Err(Error::BootSectorValidation(_))));
}

#[test]
fn test_not_fat32() {
    let mut data = create_valid_fat32_boot_sector();
    // Set root entry count to non-zero (FAT12/16)
    data[17] = 0x00;
    data[18] = 0x02;
    let boot = BootSector::from_bytes(&data).unwrap();
    let result = validate_boot_sector(&boot);
    assert!(matches!(result, Err(Error::InvalidFAT32(_))));
}

#[test]
fn test_valid_fsinfo() {
    let mut data = [0u8; 512];
    data[0..4].copy_from_slice(&FSInfo::LEAD_SIG.to_le_bytes());
    data[484..488].copy_from_slice(&FSInfo::STRUC_SIG.to_le_bytes());
    data[508..512].copy_from_slice(&FSInfo::TRAIL_SIG.to_le_bytes());

    let fsinfo = FSInfo::from_bytes(&data).unwrap();
    assert!(validate_fsinfo(&fsinfo).is_ok());
}

#[test]
fn test_invalid_fsinfo() {
    let data = [0u8; 512]; // All zeros - invalid signatures
    let fsinfo = FSInfo::from_bytes(&data).unwrap();
    let result = validate_fsinfo(&fsinfo);
    assert!(matches!(result, Err(Error::FSInfoValidation(_))));
}

fn fault_of(mutate: fn(&mut [u8; 512])) -> Error {
    let mut data = create_valid_fat32_boot_sector();
    mutate(&mut data);
    let boot = BootSector::from_bytes(&data).unwrap();
    validate_boot_sector(&boot).unwrap_err()
}

#[test]
fn every_boot_sector_rule_has_its_error() {
    assert_eq!(
        fault_of(|d| d[511] = 0x00),
        Error::BootSectorValidation(BootSectorFault::Signature(0x0055))
    );
    assert_eq!(
        fault_of(|d| d[12] = 0x03),
        Error::BootSectorValidation(BootSectorFault::BytesPerSector(768))
    );
    assert_eq!(
        fault_of(|d| d[13] = 3),
        Error::BootSectorValidation(BootSectorFault::SectorsPerCluster(3))
    );
    assert_eq!(
        fault_of(|d| d[13] = 0),
        Error::BootSectorValidation(BootSectorFault::SectorsPerCluster(0))
    );
    assert_eq!(
        fault_of(|d| d[14] = 0),
        Error::BootSectorValidation(BootSectorFault::ReservedSectors)
    );
    assert_eq!(
        fault_of(|d| d[16] = 3),
        Error::BootSectorValidation(BootSectorFault::FatCount(3))
    );
    assert_eq!(fault_of(|d| d[17] = 1), Error::InvalidFAT32(Fat32Fault::RootEntryCount));
    assert_eq!(fault_of(|d| d[19] = 1), Error::InvalidFAT32(Fat32Fault::TotalSectors16));
    assert_eq!(fault_of(|d| d[22] = 1), Error::InvalidFAT32(Fat32Fault::FatSize16));
    assert_eq!(
        fault_of(|d| d[32..36].copy_from_slice(&0u32.to_le_bytes())),
        Error::BootSectorValidation(BootSectorFault::TotalSectors)
    );
    assert_eq!(
        fault_of(|d| d[36..40].copy_from_slice(&0u32.to_le_bytes())),
        Error::BootSectorValidation(BootSectorFault::FatSize)
    );
    assert_eq!(
        fault_of(|d| d[44] = 1),
        Error::BootSectorValidation(BootSectorFault::RootCluster(1))
    );
    assert_eq!(
        fault_of(|d| d[21] = 0xF1),
        Error::BootSectorValidation(BootSectorFault::MediaType(0xF1))
    );
    // 500 000 sectors in clusters of 8: 60 542 clusters, too few for FAT32
    assert_eq!(
        fault_of(|d| d[32..36].copy_from_slice(&500_000u32.to_le_bytes())),
        Error::InvalidFAT32(Fat32Fault::ClusterCount((500_000 - 32 - 2 * 7813) / 8))
    );
    // fewer sectors than the FATs alone take
    assert_eq!(
        fault_of(|d| d[32..36].copy_from_slice(&100u32.to_le_bytes())),
        Error::InvalidFAT32(Fat32Fault::ClusterCount(0))
    );
}

#[test]
fn first_broken_rule_is_reported() {
    // wrong signature and wrong media type: the signature comes first
    let e = fault_of(|d| {
        d[510] = 0x12;
        d[21] = 0x00;
    });
    assert_eq!(e, Error::BootSectorValidation(BootSectorFault::Signature(0xAA12)));
}

#[test]
fn recovery_accepts_only_zero_signature() {
    let mut data = create_valid_fat32_boot_sector();
    data[510] = 0;
    data[511] = 0;
    let boot = BootSector::from_bytes(&data).unwrap();
    assert!(validate_boot_sector_for_recovery(&boot).is_ok());
    assert!(validate_boot_sector(&boot).is_err());
    data[510] = 1;
    let boot = BootSector::from_bytes(&data).unwrap();
    assert_eq!(
        validate_boot_sector_for_recovery(&boot),
        Err(Error::BootSectorValidation(BootSectorFault::Signature(1)))
    );
}

#[test]
fn fsinfo_signatures_are_checked_in_order() {
    let mut data = [0u8; 512];
    let check = |d: &[u8; 512]| validate_fsinfo(&FSInfo::from_bytes(d).unwrap());
    assert_eq!(check(&data), Err(Error::FSInfoValidation(FsInfoFault::LeadSignature(0))));
    data[0..4].copy_from_slice(&FSInfo::LEAD_SIG.to_le_bytes());
    assert_eq!(check(&data), Err(Error::FSInfoValidation(FsInfoFault::StructSignature(0))));
    data[484..488].copy_from_slice(&FSInfo::STRUC_SIG.to_le_bytes());
    assert_eq!(check(&data), Err(Error::FSInfoValidation(FsInfoFault::TrailSignature(0))));
    data[508..512].copy_from_slice(&FSInfo::TRAIL_SIG.to_le_bytes());
    assert_eq!(check(&data), Ok(()));
}

#[test]
fn backup_match_ignores_serial_and_label() {
    let data = create_valid_fat32_boot_sector();
    let primary = BootSector::from_bytes(&data).unwrap();
    let mut other = data;
    other[67] = 0x99; // volume serial
    other[71] = b'X'; // volume label
    let backup = BootSector::from_bytes(&other).unwrap();
    assert!(boot_sectors_match(&primary, &backup));
    other[36] = other[36].wrapping_add(1); // FAT size
    let backup = BootSector::from_bytes(&other).unwrap();
    assert!(!boot_sectors_match(&primary, &backup));
}

#[test]
fn signature_helpers_and_setters() {
    let data = create_valid_fat32_boot_sector();
    let mut boot = BootSector::from_bytes(&data).unwrap();
    assert!(boot.is_signature_valid());
    boot.invalidate_signature();
    assert!(!boot.is_signature_valid());
    assert_eq!(boot.boot_signature(), 0);
    boot.restore_signature();
    assert_eq!(boot.boot_signature(), 0xAA55);
    boot.set_total_sectors_32(0x0102_0304);
    boot.set_fat_size_32(0x0A0B_0C0D);
    boot.set_root_cluster(9);
    assert_eq!(boot.total_sectors_32(), 0x0102_0304);
    assert_eq!(boot.fat_size_32(), 0x0A0B_0C0D);
    assert_eq!(boot.root_cluster(), 9);
    assert_eq!(&boot.as_bytes()[32..36], &[4, 3, 2, 1]);
    // every byte that no setter touched is as it was
    let now = boot.as_bytes();
    for i in 0..512 {
        if !(32..40).contains(&i) && !(44..48).contains(&i) {
            assert_eq!(now[i], data[i]);
        }
    }
    assert_eq!(boot.oem_name(), b"MSDOS5.0");
    assert_eq!(boot.fs_type(), b"FAT32   ");
    assert_eq!(boot.jump_boot(), &[0xEB, 0x58, 0x90]);
}

#[test]
fn total_sectors_prefers_the_32_bit_count() {
    let mut data = create_valid_fat32_boot_sector();
    data[32..36].copy_from_slice(&2u32.to_le_bytes());
    data[19] = 1;
    let boot = BootSector::from_bytes(&data).unwrap();
    assert_eq!(boot.total_sectors_16(), 1);
    assert_eq!(boot.total_sectors_32(), 2);
    assert_eq!(boot.total_sectors(), 2);
    // the 16-bit count is the fallback
    data[32..36].copy_from_slice(&0u32.to_le_bytes());
    data[19..21].copy_from_slice(&40_000u16.to_le_bytes());
    let boot = BootSector::from_bytes(&data).unwrap();
    assert_eq!(boot.total_sectors(), 40_000);
    data[19..21].copy_from_slice(&0u16.to_le_bytes());
    let boot = BootSector::from_bytes(&data).unwrap();
    assert_eq!(boot.total_sectors(), 0);
    // the FAT size goes by the 16-bit field where that is set
    data[22] = 9;
    let boot = BootSector::from_bytes(&data).unwrap();
    assert_eq!(boot.fat_size(), 9);
}

#[test]
fn derived_geometry() {
    let data = create_valid_fat32_boot_sector();
    let boot = BootSector::from_bytes(&data).unwrap();
    assert_eq!(boot.first_fat_sector(), 32);
    assert_eq!(boot.first_data_sector(), 32 + 2 * 7813);
    assert_eq!(boot.data_sectors(), 2_000_000 - 32 - 2 * 7813);
    assert_eq!(boot.data_clusters(), (2_000_000 - 32 - 2 * 7813) / 8);
    assert_eq!(boot.cluster_to_sector(2), 32 + 2 * 7813);
    assert_eq!(boot.cluster_to_sector(10), 32 + 2 * 7813 + 8 * 8);
    assert_eq!(boot.bytes_per_cluster(), 4096);
    assert_eq!(boot.sector_size(), 512);
}
