use fat32expander::error::CalculationFault;
use fat32expander::fat32::BootSector;
use fat32expander::resize::{calculate_fat_size, calculate_new_size, SizeCalculation};
use fat32expander::Error;

fn create_test_boot_sector(total_sectors: u32, fat_size: u32) -> BootSector {
    let mut data = [0u8; 512];

    // Jump instruction
    data[0] = 0xEB;
    data[1] = 0x58;
    data[2] = 0x90;

    // Bytes per sector (512)
    data[11] = 0x00;
    data[12] = 0x02;

    // Sectors per cluster (8)
    data[13] = 0x08;

    // Reserved sectors (32)
    data[14] = 0x20;
    data[15] = 0x00;

    // Number of FATs (2)
    data[16] = 0x02;

    // Media type
    data[21] = 0xF8;

    // Total sectors 32
    data[32..36].copy_from_slice(&total_sectors.to_le_bytes());

    // FAT size 32
    data[36..40].copy_from_slice(&fat_size.to_le_bytes());

    // Root cluster (2)
    data[44..48].copy_from_slice(&2u32.to_le_bytes());

    // FSInfo sector (1)
    data[48] = 0x01;

    // Backup boot sector (6)
    data[50] = 0x06;

    // Boot signature
    data[510] = 0x55;
    data[511] = 0xAA;

    BootSector::from_bytes(&data).unwrap()
}

#[test]
fn test_calculate_fat_size() {
    // Test with known values
    // 1GB volume with 512 byte sectors and 8 sectors per cluster
    let total_sectors = 2_097_152u32; // 1GB
    let fat_size = calculate_fat_size(total_sectors, 32, 2, 8, 512).unwrap();

    // FAT32 needs 4 bytes per entry
    // With 8 sectors per cluster, we have ~262000 clusters
    // At 4 bytes each, we need ~1MB of FAT = ~2048 sectors
    assert!(fat_size > 0);
    assert!(fat_size < 10000); // Sanity check
}

#[test]
fn test_calculate_new_size_growth() {
    // Start with a 500MB filesystem
    let boot = create_test_boot_sector(1_000_000, 1000);

    // Grow to 2GB
    let calc = calculate_new_size(&boot, 4_000_000).unwrap();

    assert_eq!(calc.old_total_sectors, 1_000_000);
    assert_eq!(calc.new_total_sectors, 4_000_000);
    assert!(calc.new_fat_size >= calc.old_fat_size);
}

#[test]
fn test_calculate_new_size_no_shrink() {
    let boot = create_test_boot_sector(2_000_000, 2000);

    // Try to shrink - should fail
    let result = calculate_new_size(&boot, 1_000_000);
    assert!(matches!(result, Err(Error::ShrinkNotSupported)));
}

#[test]
fn test_calculate_new_size_same_size() {
    let boot = create_test_boot_sector(2_000_000, 2000);

    // Same size - should fail
    let result = calculate_new_size(&boot, 2_000_000);
    assert!(matches!(result, Err(Error::AlreadyMaxSize)));
}

#[test]
fn fat_size_formula_exact_values() {
    // ceil((2 097 152 - 32) / (128 * 8 + 1))
    assert_eq!(calculate_fat_size(2_097_152, 32, 2, 8, 512), Ok(2046));
    // ceil((262 144 - 32) / (128 * 1 + 1))
    assert_eq!(calculate_fat_size(262_144, 32, 2, 1, 512), Ok(2032));
    // one FAT: the divisor has no share of the copies
    assert_eq!(calculate_fat_size(262_144, 32, 1, 1, 512), Ok(2048));
    // an exact multiple is not rounded up
    assert_eq!(calculate_fat_size(32 + 1025 * 7, 32, 2, 8, 512), Ok(7));
    assert_eq!(calculate_fat_size(32 + 1025 * 7 + 1, 32, 2, 8, 512), Ok(8));
    // sectors of 4096 bytes hold 1024 entries
    assert_eq!(calculate_fat_size(1_000_032, 32, 2, 1, 4096), Ok(976));
}

#[test]
fn fat_size_zero_divisor() {
    assert_eq!(
        calculate_fat_size(1000, 32, 1, 0, 512),
        Err(Error::Calculation(CalculationFault::ZeroDivisor))
    );
}

#[test]
fn new_size_exact_calculation() {
    let boot = create_test_boot_sector(1_000_000, 900);
    let calc = calculate_new_size(&boot, 4_000_000).unwrap();
    // ceil((4 000 000 - 32) / 1025) = 3903
    let expected = SizeCalculation {
        old_total_sectors: 1_000_000,
        new_total_sectors: 4_000_000,
        old_fat_size: 900,
        new_fat_size: 3903,
        new_data_clusters: (4_000_000 - 32 - 2 * 3903) / 8,
        new_free_clusters: (4_000_000 - 32 - 2 * 3903) / 8 - (1_000_000 - 32 - 2 * 900) / 8,
        fat_needs_growth: true,
        fat_growth_sectors: 3003,
        first_affected_cluster: 2,
        // ceil(3003 * 2 / 8) = 751 clusters lie under the longer FATs
        last_affected_cluster: 752,
    };
    assert_eq!(calc, expected);
    assert_eq!(calc.size_increase(512), 3_000_000 * 512);
    assert_eq!(calc.new_size_bytes(512), 4_000_000 * 512);
    assert_eq!(calc.additional_clusters(100), calc.new_data_clusters - 100);
    assert_eq!(calc.additional_clusters(u32::MAX), 0);
}

#[test]
fn new_size_without_fat_growth() {
    // the FAT is already as long as the grown volume needs
    let boot = create_test_boot_sector(1_000_000, 3903);
    let calc = calculate_new_size(&boot, 4_000_000).unwrap();
    assert!(!calc.fat_needs_growth);
    assert_eq!(calc.fat_growth_sectors, 0);
    assert_eq!(calc.first_affected_cluster, 2);
    assert_eq!(calc.last_affected_cluster, 1);
}

#[test]
fn new_size_device_too_large() {
    let boot = create_test_boot_sector(1_000_000, 1000);
    assert_eq!(
        calculate_new_size(&boot, 0x1_0000_0000),
        Err(Error::Calculation(CalculationFault::DeviceTooLarge(0x1_0000_0000)))
    );
    assert!(calculate_new_size(&boot, 0xFFFF_FFFF).is_ok());
}

#[test]
fn new_size_too_few_clusters() {
    // 65 525 clusters of 8 sectors with FATs of 1 sector; one more sector
    // makes the formula ask for FATs of 512 sectors, which leaves too few
    let total = 32 + 2 + 65_525 * 8;
    let boot = create_test_boot_sector(total, 1);
    let fat = 512;
    assert_eq!(calculate_fat_size(total + 1, 32, 2, 8, 512), Ok(fat));
    let clusters = (total + 1 - 32 - 2 * fat) / 8;
    assert!(clusters < 65_525);
    assert_eq!(
        calculate_new_size(&boot, (total + 1) as u64),
        Err(Error::Calculation(CalculationFault::ClusterCount(clusters)))
    );
}
