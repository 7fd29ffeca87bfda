use fat32expander::mounts::{find_mount, mount_entry, mount_table, same_bytes};

fn entry(device: &str, point: &str) -> (Vec<u8>, Vec<u8>) {
    (device.as_bytes().to_vec(), point.as_bytes().to_vec())
}

#[test]
fn mount_line_fields() {
    assert_eq!(
        mount_entry(b"/dev/sda1 /boot vfat rw,relatime 0 0"),
        Some(entry("/dev/sda1", "/boot"))
    );
    assert_eq!(mount_entry(b"  \t/dev/sdb\t\t/mnt/usb  "), Some(entry("/dev/sdb", "/mnt/usb")));
    assert_eq!(mount_entry(b"proc /proc"), Some(entry("proc", "/proc")));
    assert_eq!(mount_entry(b"a b"), Some(entry("a", "b")));
    assert_eq!(mount_entry(b"/dev/sda1"), None);
    assert_eq!(mount_entry(b"/dev/sda1   "), None);
    assert_eq!(mount_entry(b""), None);
    assert_eq!(mount_entry(b"   "), None);
    // a carriage return at the end of a line is whitespace
    assert_eq!(mount_entry(b"/dev/sda1 /boot\r"), Some(entry("/dev/sda1", "/boot")));
}

#[test]
fn mount_table_lines() {
    let text = b"sysfs /sys sysfs rw 0 0\n/dev/sda1 /boot vfat rw 0 0\n\nbroken\n/dev/sdb1 /mnt ext4 rw 0 0";
    assert_eq!(
        mount_table(text),
        vec![entry("sysfs", "/sys"), entry("/dev/sda1", "/boot"), entry("/dev/sdb1", "/mnt")]
    );
    assert_eq!(mount_table(b""), vec![]);
    assert_eq!(mount_table(b"\n\n"), vec![]);
    assert_eq!(mount_table(b"a b\n"), vec![entry("a", "b")]);
    assert_eq!(mount_table(b"\na b"), vec![entry("a", "b")]);
    // fields do not reach over the end of a line
    assert_eq!(mount_table(b"a\nb c\n"), vec![entry("b", "c")]);
}

#[test]
fn first_mount_of_a_device() {
    let devices = vec![b"/dev/sda1".to_vec(), b"/dev/sdb1".to_vec(), b"/dev/sda1".to_vec()];
    assert_eq!(find_mount(&devices, b"/dev/sda1"), Some(0));
    assert_eq!(find_mount(&devices, b"/dev/sdb1"), Some(1));
    assert_eq!(find_mount(&devices, b"/dev/sdb"), None);
    assert_eq!(find_mount(&[], b"/dev/sdb"), None);
    assert!(same_bytes(b"abc", b"abc"));
    assert!(!same_bytes(b"abc", b"abd"));
    assert!(!same_bytes(b"abc", b"ab"));
    assert!(same_bytes(b"", b""));
}
