use fat32expander::resize::{ResizeOptions, ResizeResult, SizeCalculation};

#[test]
fn test_resize_options() {
    let opts = ResizeOptions {
        device_path: "/dev/sda1".to_string(),
        dry_run: true,
        verbose: false,
    };

    assert_eq!(opts.device_path, "/dev/sda1");
    assert!(opts.dry_run);
    assert!(!opts.verbose);
}

#[test]
fn test_resize_result() {
    let calc = SizeCalculation {
        old_total_sectors: 1000000,
        new_total_sectors: 2000000,
        old_fat_size: 1000,
        new_fat_size: 2000,
        new_data_clusters: 200000,
        new_free_clusters: 100000,
        fat_needs_growth: true,
        fat_growth_sectors: 1000,
        first_affected_cluster: 2,
        last_affected_cluster: 10,
    };

    let result = ResizeResult {
        old_size_bytes: 512000000,
        new_size_bytes: 1024000000,
        fat_grew: true,
        clusters_relocated: 5,
        calculation: calc,
        operations: vec!["test".to_string()],
    };

    assert_eq!(result.old_size_bytes, 512000000);
    assert!(result.fat_grew);
    assert_eq!(result.clusters_relocated, 5);
}
