use fat32expander::device::{DeviceOp, ProtocolPoint};
use fat32expander::error::IoFault;
use fat32expander::{Device, Error};

#[test]
fn test_device_open_file() {
    let mut device = Device::from_image(vec![0u8; 1024 * 1024]);
    assert_eq!(device.sector_size(), 512);
    assert_eq!(device.total_sectors(), 2048); // 1MB / 512 = 2048 sectors
    device.set_sector_size(4096);
    assert_eq!(device.total_sectors(), 256);
    assert_eq!(device.size_bytes(), Ok(1024 * 1024));
    let device = Device::from_image(vec![0u8; 1000]);
    assert_eq!(device.total_sectors(), 1);
}

#[test]
fn test_device_read_write() {
    let mut device = Device::from_image(vec![0u8; 1024 * 1024]);

    // Write test pattern to sector 10
    let test_data = vec![0xAB; 512];
    device.write_sector(10, &test_data).unwrap();

    // Read it back
    let read_data = device.read_sector(10).unwrap();
    assert_eq!(read_data, test_data);

    // Verify other sectors are still zeros
    let sector0 = device.read_sector(0).unwrap();
    assert_eq!(sector0, vec![0u8; 512]);
    assert_eq!(device.read_sectors(9, 3).unwrap()[511], 0);
    assert_eq!(device.read_sectors(9, 3).unwrap()[512], 0xAB);
    assert_eq!(device.read_sectors(9, 3).unwrap()[1024], 0);
}

#[test]
fn device_rejects_what_does_not_fit() {
    let mut device = Device::from_image(vec![7u8; 2048]);
    assert_eq!(device.write_sector(0, &[0u8; 100]), Err(Error::Io(IoFault::InvalidInput)));
    assert_eq!(device.write_sector(4, &[0u8; 512]), Err(Error::Io(IoFault::OutOfRange)));
    assert_eq!(device.read_sector(4), Err(Error::Io(IoFault::OutOfRange)));
    assert_eq!(device.read_sectors(3, 2), Err(Error::Io(IoFault::OutOfRange)));
    assert_eq!(device.read_bytes_at(2048, 1), Err(Error::Io(IoFault::OutOfRange)));
    assert_eq!(device.read_bytes_at(u64::MAX, 1), Err(Error::Io(IoFault::OutOfRange)));
    assert_eq!(device.read_sector(u64::MAX), Err(Error::Io(IoFault::OutOfRange)));
    assert_eq!(device.write_bytes_at(2047, &[1, 2]), Err(Error::Io(IoFault::OutOfRange)));
    assert_eq!(device.read_bytes_at(2048, 0), Ok(vec![]));
    assert!(device.sync().is_ok());
    // nothing was written
    assert_eq!(device.into_image(), vec![7u8; 2048]);
}

#[test]
fn operations_act_on_bytes() {
    let mut device = Device::from_image((0..=255u8).collect());
    device.apply(&DeviceOp::Write { offset: 2, data: vec![9, 9] }).unwrap();
    device.apply(&DeviceOp::Zero { offset: 10, len: 3 }).unwrap();
    // the source is read whole before the target is written
    device.apply(&DeviceOp::Copy { from: 100, to: 102, len: 4 }).unwrap();
    device.apply(&DeviceOp::Sync).unwrap();
    device.apply(&DeviceOp::Reached(ProtocolPoint::AfterDataShift)).unwrap();
    let image = device.into_image();
    assert_eq!(&image[0..6], &[0, 1, 9, 9, 4, 5]);
    assert_eq!(&image[9..14], &[9, 0, 0, 0, 13]);
    assert_eq!(&image[100..107], &[100, 101, 100, 101, 102, 103, 106]);
}

#[test]
fn a_list_of_operations_stops_at_the_first_that_does_not_fit() {
    let mut device = Device::from_image(vec![0u8; 16]);
    let ops = vec![
        DeviceOp::Write { offset: 0, data: vec![1] },
        DeviceOp::Copy { from: 0, to: 15, len: 2 },
        DeviceOp::Write { offset: 1, data: vec![2] },
    ];
    assert_eq!(device.apply_all(&ops), Err(Error::Io(IoFault::OutOfRange)));
    let image = device.into_image();
    assert_eq!(&image[0..2], &[1, 0]);
    let mut device = Device::from_image(vec![0u8; 16]);
    assert_eq!(device.apply_all(&ops[..1]), Ok(()));
    assert_eq!(device.apply(&DeviceOp::Zero { offset: 16, len: 1 }), Err(Error::Io(IoFault::OutOfRange)));
    assert_eq!(device.apply(&DeviceOp::Copy { from: 15, to: 0, len: 2 }), Err(Error::Io(IoFault::OutOfRange)));
}
