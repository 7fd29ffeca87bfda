use fat32expander::error::IoFault;
use fat32expander::fat32::BootSector;
use fat32expander::resize::{
    execute_relocation, plan_relocation, verify_relocation, ClusterMove, RelocationPlan,
};
use fat32expander::{Device, Error};

#[test]
fn test_cluster_move() {
    let mv = ClusterMove {
        from_cluster: 5,
        to_cluster: 5, // Same cluster number with new approach
        from_sector: 1000,
        to_sector: 2000,
    };

    assert_eq!(mv.from_cluster, 5);
    assert_eq!(mv.to_cluster, 5);
    assert_eq!(mv.from_sector, 1000);
    assert_eq!(mv.to_sector, 2000);
}

#[test]
fn test_relocation_plan_empty() {
    let plan = RelocationPlan {
        moves: vec![],
        total_bytes: 0,
        old_first_data_sector: 2050,
        new_first_data_sector: 4096,
    };

    assert!(plan.is_empty());
    assert_eq!(plan.cluster_count(), 0);
}

#[test]
fn test_relocation_plan_with_moves() {
    let plan = RelocationPlan {
        moves: vec![
            ClusterMove {
                from_cluster: 3,
                to_cluster: 3,
                from_sector: 200,
                to_sector: 400,
            },
            ClusterMove {
                from_cluster: 2,
                to_cluster: 2,
                from_sector: 100,
                to_sector: 300,
            },
        ],
        total_bytes: 8192,
        old_first_data_sector: 100,
        new_first_data_sector: 300,
    };

    assert!(!plan.is_empty());
    assert_eq!(plan.cluster_count(), 2);
    assert_eq!(plan.total_bytes, 8192);
}

#[test]
fn test_verify_relocation_always_succeeds() {
    let fat = vec![
        0x0FFFFFF8, 0x0FFFFFFF, 0x00000003, // Cluster 2 in use
        0x0FFFFFFF, // Cluster 3 in use
    ];

    // With new approach, verification always succeeds
    assert!(verify_relocation(&fat, 2, 4).is_ok());
}

fn boot_sector(total_sectors: u32, fat_size: u32, spc: u8, num_fats: u8) -> BootSector {
    let mut data = [0u8; 512];
    data[11] = 0x00;
    data[12] = 0x02;
    data[13] = spc;
    data[14] = 0x20;
    data[16] = num_fats;
    data[21] = 0xF8;
    data[32..36].copy_from_slice(&total_sectors.to_le_bytes());
    data[36..40].copy_from_slice(&fat_size.to_le_bytes());
    data[44..48].copy_from_slice(&2u32.to_le_bytes());
    data[48] = 0x01;
    data[50] = 0x06;
    data[510] = 0x55;
    data[511] = 0xAA;
    BootSector::from_bytes(&data).unwrap()
}

#[test]
fn plan_lists_used_clusters_from_the_top() {
    let boot = boot_sector(1_000_000, 1000, 8, 2);
    let mut fat = vec![0u32; 100];
    fat[0] = 0x0FFFFFF8;
    fat[1] = 0x0FFFFFFF;
    fat[2] = 0x0FFFFFFF;
    fat[5] = 6;
    fat[6] = 0x0FFFFFFF;
    fat[9] = 0xF0000000; // free: only the reserved bits are set
    fat[10] = 0x0FFFFFF7; // bad cluster: not free
    let plan = plan_relocation(&boot, &fat, 2, 3).unwrap();
    // each FAT grows by 3 sectors, so the data shifts by 6
    let old_first = 32 + 2 * 1000;
    assert_eq!(plan.old_first_data_sector, old_first);
    assert_eq!(plan.new_first_data_sector, old_first + 6);
    let clusters: Vec<u32> = plan.moves.iter().map(|m| m.from_cluster).collect();
    assert_eq!(clusters, vec![10, 6, 5, 2]);
    for m in &plan.moves {
        assert_eq!(m.to_cluster, m.from_cluster);
        assert_eq!(m.from_sector, old_first + (m.from_cluster as u64 - 2) * 8);
        assert_eq!(m.to_sector, m.from_sector + 6);
    }
    assert_eq!(plan.total_bytes, 4 * 4096);
    assert_eq!(plan.cluster_count(), 4);
}

#[test]
fn plan_starts_at_first_affected() {
    let boot = boot_sector(1_000_000, 1000, 8, 2);
    let mut fat = vec![0u32; 20];
    fat[2] = 0x0FFFFFFF;
    fat[3] = 0x0FFFFFFF;
    fat[7] = 0x0FFFFFFF;
    let plan = plan_relocation(&boot, &fat, 3, 1).unwrap();
    let clusters: Vec<u32> = plan.moves.iter().map(|m| m.from_cluster).collect();
    assert_eq!(clusters, vec![7, 3]);
}

#[test]
fn plan_is_empty_without_growth() {
    let boot = boot_sector(1_000_000, 1000, 8, 2);
    let fat = vec![0x0FFFFFFFu32; 50];
    let plan = plan_relocation(&boot, &fat, 2, 0).unwrap();
    assert!(plan.is_empty());
    assert_eq!(plan.total_bytes, 0);
    assert_eq!(plan.new_first_data_sector, plan.old_first_data_sector);
}

#[test]
fn plan_stops_at_the_last_data_cluster() {
    // 32 + 2 * 1000 + 65 530 clusters of one sector
    let boot = boot_sector(32 + 2000 + 65_530, 1000, 1, 2);
    let fat = vec![0x0FFFFFFFu32; 70_000];
    let plan = plan_relocation(&boot, &fat, 2, 1).unwrap();
    assert_eq!(plan.cluster_count(), 65_530);
    assert_eq!(plan.moves[0].from_cluster, 65_531);
    assert_eq!(plan.moves[65_529].from_cluster, 2);
}

fn shift_plan(clusters: &[u32], old_first: u64, shift: u64, spc: u64) -> RelocationPlan {
    RelocationPlan {
        moves: clusters
            .iter()
            .map(|&c| ClusterMove {
                from_cluster: c,
                to_cluster: c,
                from_sector: old_first + (c as u64 - 2) * spc,
                to_sector: old_first + (c as u64 - 2) * spc + shift,
            })
            .collect(),
        total_bytes: clusters.len() as u64 * spc * 512,
        old_first_data_sector: old_first,
        new_first_data_sector: old_first + shift,
    }
}

#[test]
fn descending_plan_keeps_every_cluster() {
    // clusters of 2 sectors from sector 10 on, shifted by 3 sectors: the
    // new place of a cluster reaches into the old place of the next two
    let boot = boot_sector(1_000_000, 1000, 2, 2);
    let mut image = vec![0u8; 64 * 512];
    for (i, b) in image.iter_mut().enumerate() {
        *b = (i / 512 * 7 + i % 512) as u8;
    }
    let before = image.clone();
    let mut device = Device::from_image(image);
    let clusters = [9, 8, 7, 5, 4, 3, 2];
    let plan = shift_plan(&clusters, 10, 3, 2);
    assert_eq!(execute_relocation(&mut device, &boot, &plan), Ok(vec![]));
    let after = device.into_image();
    for c in clusters {
        let from = (10 + (c as usize - 2) * 2) * 512;
        let to = from + 3 * 512;
        assert_eq!(&after[to..to + 1024], &before[from..from + 1024], "cluster {}", c);
    }
    // nothing before the new place of the lowest cluster has changed
    assert_eq!(&after[..13 * 512], &before[..13 * 512]);
    // nor behind the new place of the highest
    assert_eq!(&after[29 * 512..], &before[29 * 512..]);
}

#[test]
fn plan_that_leaves_the_device_fails() {
    let boot = boot_sector(1_000_000, 1000, 2, 2);
    let mut device = Device::from_image(vec![1u8; 20 * 512]);
    let plan = shift_plan(&[6, 2], 10, 3, 2);
    assert_eq!(
        execute_relocation(&mut device, &boot, &plan),
        Err(Error::Io(IoFault::OutOfRange))
    );
    assert_eq!(device.into_image(), vec![1u8; 20 * 512]);
}
