use fat32expander::error::IoFault;
use fat32expander::fat32::fat_entry;
use fat32expander::fat32::operations::{decode_fat, encode_fat, merge_fat_entry};
use fat32expander::fat32::{
    count_free_clusters, find_free_cluster, read_cluster, read_fat_entry, read_fat_table,
    write_cluster, write_fat_entries, write_fat_entry, BootSector,
};
use fat32expander::{Device, Error};

#[test]
fn test_count_free_clusters() {
    let fat = vec![
        0x0FFFFFF8, // Entry 0: Media type
        0x0FFFFFFF, // Entry 1: Reserved
        0x00000003, // Entry 2: Points to cluster 3
        0x0FFFFFFF, // Entry 3: End of chain
        0x00000000, // Entry 4: Free
        0x00000000, // Entry 5: Free
        0x00000007, // Entry 6: Points to cluster 7
        0x0FFFFFFF, // Entry 7: End of chain
    ];

    // Max cluster 5 means we only count up to entry 7 (5+2)
    assert_eq!(count_free_clusters(&fat, 5), 2); // Entries 4 and 5 are free
}

#[test]
fn test_find_free_cluster() {
    let fat = [
        0x0FFFFFF8, // Entry 0: Media type
        0x0FFFFFFF, // Entry 1: Reserved
        0x00000003, // Entry 2: Used
        0x0FFFFFFF, // Entry 3: Used
        0x00000000, // Entry 4: Free
        0x00000000, // Entry 5: Free
    ];

    // Create a mock boot sector (not actually used in this simplified test)
    // In real code, we'd need a proper Device

    // Test the function logic without device
    let result = fat
        .iter()
        .enumerate()
        .skip(2) // Skip entries 0 and 1
        .find(|(_, &e)| fat_entry::is_free(e))
        .map(|(i, _)| i as u32);

    assert_eq!(result, Some(4));
}

fn boot_sector() -> BootSector {
    let mut data = [0u8; 512];
    data[11] = 0x00;
    data[12] = 0x02;
    data[13] = 1;
    data[14] = 4; // 4 reserved sectors
    data[16] = 2;
    data[21] = 0xF8;
    data[32..36].copy_from_slice(&100u32.to_le_bytes());
    data[36..40].copy_from_slice(&2u32.to_le_bytes());
    data[44..48].copy_from_slice(&2u32.to_le_bytes());
    data[48] = 0x01;
    data[50] = 0x02;
    data[510] = 0x55;
    data[511] = 0xAA;
    BootSector::from_bytes(&data).unwrap()
}

#[test]
fn count_free_clusters_stops_at_the_end_of_the_fat() {
    let fat = vec![0u32, 0, 0, 1, 0];
    assert_eq!(count_free_clusters(&fat, 100), 2);
    assert_eq!(count_free_clusters(&fat, 0), 0);
    assert_eq!(count_free_clusters(&fat, 1), 1);
    // reserved bits do not make an entry used
    let fat = vec![0u32, 0, 0xF0000000, 0x10000000];
    assert_eq!(count_free_clusters(&fat, 2), 2);
}

#[test]
fn find_free_cluster_searches_up_then_wraps() {
    let boot = boot_sector(); // 100 - 4 - 4 = 92 data clusters
    let mut fat = vec![0x0FFFFFFFu32; 94];
    fat[4] = 0;
    fat[50] = 0;
    assert_eq!(find_free_cluster(&boot, &fat, 2), Some(4));
    assert_eq!(find_free_cluster(&boot, &fat, 5), Some(50));
    assert_eq!(find_free_cluster(&boot, &fat, 51), Some(4));
    fat[4] = 1;
    fat[50] = 1;
    assert_eq!(find_free_cluster(&boot, &fat, 10), None);
    // entry 93 is the last data cluster, entry 94 is none
    let mut fat = vec![0x0FFFFFFFu32; 96];
    fat[94] = 0;
    assert_eq!(find_free_cluster(&boot, &fat, 2), None);
    fat[93] = 0;
    assert_eq!(find_free_cluster(&boot, &fat, 2), Some(93));
}

#[test]
fn fat_codec_round_trip() {
    let entries = vec![0x0FFFFFF8u32, 0xFFFFFFFF, 0, 0x12345678];
    let bytes = encode_fat(&entries);
    assert_eq!(
        bytes,
        vec![0xF8, 0xFF, 0xFF, 0x0F, 0xFF, 0xFF, 0xFF, 0xFF, 0, 0, 0, 0, 0x78, 0x56, 0x34, 0x12]
    );
    assert_eq!(decode_fat(&bytes), entries);
    // bytes that do not make a whole entry are left out
    assert_eq!(decode_fat(&bytes[..7]), vec![0x0FFFFFF8u32]);
}

#[test]
fn merge_keeps_the_reserved_bits() {
    assert_eq!(merge_fat_entry(0xA0000005, 0x00000009), 0xA0000009);
    assert_eq!(merge_fat_entry(0x00000005, 0xF0000009), 0x00000009);
    assert_eq!(merge_fat_entry(0xF0000000, 0xFFFFFFFF), 0xFFFFFFFF);
    assert_eq!(merge_fat_entry(0x5FFFFFFF, 0), 0x50000000);
}

#[test]
fn fat_entry_write_keeps_reserved_bits_in_every_copy() {
    let boot = boot_sector();
    let mut device = Device::from_image(vec![0u8; 100 * 512]);
    // entry 3 of FAT 0 (sector 4) and of FAT 1 (sector 6)
    let first = 4 * 512 + 3 * 4;
    let second = 6 * 512 + 3 * 4;
    device.write_bytes_at(first as u64, &0xB0000007u32.to_le_bytes()).unwrap();
    device.write_bytes_at(second as u64, &0x30000007u32.to_le_bytes()).unwrap();
    write_fat_entry(&mut device, &boot, 3, 0xFFFFFFF8).unwrap();
    assert_eq!(read_fat_entry(&device, &boot, 3), Ok(0xBFFFFFF8));
    let image = device.into_image();
    assert_eq!(&image[first..first + 4], &0xBFFFFFF8u32.to_le_bytes());
    assert_eq!(&image[second..second + 4], &0x3FFFFFF8u32.to_le_bytes());
    // nothing else was written
    let written = image.iter().filter(|&&b| b != 0).count();
    assert_eq!(written, 8);
}

#[test]
fn fat_table_read_and_raw_write() {
    let boot = boot_sector();
    let mut device = Device::from_image(vec![0u8; 100 * 512]);
    write_fat_entries(&mut device, &boot, 1, 2, &[0x0FFFFFFF, 0xF0000004]).unwrap();
    let fat1 = read_fat_table(&device, &boot, 1).unwrap();
    assert_eq!(fat1.len(), 2 * 512 / 4);
    assert_eq!(&fat1[..5], &[0, 0, 0x0FFFFFFF, 0xF0000004, 0]);
    let fat0 = read_fat_table(&device, &boot, 0).unwrap();
    assert!(fat0.iter().all(|&e| e == 0));
    // a FAT beyond the end of the device cannot be read
    let small = Device::from_image(vec![0u8; 5 * 512]);
    assert_eq!(read_fat_table(&small, &boot, 0), Err(Error::Io(IoFault::OutOfRange)));
}

#[test]
fn cluster_read_and_write() {
    let boot = boot_sector(); // data starts at sector 8
    let mut device = Device::from_image(vec![0u8; 100 * 512]);
    let data = vec![0x5Au8; 512];
    write_cluster(&mut device, &boot, 4, &data).unwrap();
    assert_eq!(read_cluster(&device, &boot, 4), Ok(data));
    assert_eq!(read_cluster(&device, &boot, 3), Ok(vec![0u8; 512]));
    assert_eq!(device.read_sector(10), Ok(vec![0x5Au8; 512]));
    assert_eq!(
        write_cluster(&mut device, &boot, 4, &[1, 2, 3]),
        Err(Error::Io(IoFault::InvalidInput))
    );
    assert_eq!(
        write_cluster(&mut device, &boot, 94, &vec![0u8; 512]),
        Err(Error::Io(IoFault::OutOfRange))
    );
}
