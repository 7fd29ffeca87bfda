use fat32expander::resize::{ResizeCheckpoint, ResizePhase};
use fat32expander::Error;

fn sample() -> ResizeCheckpoint {
    ResizeCheckpoint::new(ResizePhase::DataCopied, 262_144, 524_288, 2032, 4064)
}

#[test]
fn checkpoint_layout_is_fixed() {
    let bytes = sample().to_bytes(512);
    assert_eq!(bytes.len(), 512);
    assert_eq!(&bytes[0..8], b"FAT32RSZ");
    assert_eq!(bytes[8], 1); // version
    assert_eq!(bytes[9], 1); // phase
    assert_eq!(&bytes[10..12], &[0, 0]);
    assert_eq!(&bytes[12..16], &262_144u32.to_le_bytes());
    assert_eq!(&bytes[16..20], &524_288u32.to_le_bytes());
    assert_eq!(&bytes[20..24], &2032u32.to_le_bytes());
    assert_eq!(&bytes[24..28], &4064u32.to_le_bytes());
    // the CRC-32 (IEEE) of the 28 bytes before it
    assert_eq!(&bytes[28..32], &0x771f31eau32.to_le_bytes());
    assert!(bytes[32..].iter().all(|&b| b == 0));
}

#[test]
fn checkpoint_crc_is_that_of_the_record() {
    for (phase, byte) in [
        (ResizePhase::Started, 0u8),
        (ResizePhase::DataCopied, 1),
        (ResizePhase::FatWritten, 2),
    ] {
        let cp = ResizeCheckpoint::new(phase, 1, 2, 3, 4);
        let bytes = cp.to_bytes(32);
        assert_eq!(bytes.len(), 32);
        assert_eq!(bytes[9], byte);
        let crc = crc32fast::hash(&bytes[..28]);
        assert_eq!(&bytes[28..32], &crc.to_le_bytes());
    }
}

#[test]
fn checkpoint_round_trip_for_every_sector_size() {
    for sector_size in [512usize, 1024, 2048, 4096] {
        for phase in [ResizePhase::Started, ResizePhase::DataCopied, ResizePhase::FatWritten] {
            let cp = ResizeCheckpoint::new(phase, 0xFFFF_FFFF, 0, 0x1234_5678, 7);
            let bytes = cp.to_bytes(sector_size);
            assert_eq!(bytes.len(), sector_size);
            assert_eq!(ResizeCheckpoint::from_bytes(&bytes), Ok(Some(cp)));
        }
    }
}

#[test]
fn no_checkpoint_where_magic_or_version_differ() {
    assert_eq!(ResizeCheckpoint::from_bytes(&[0u8; 512]), Ok(None));
    let bytes = sample().to_bytes(512);
    assert_eq!(ResizeCheckpoint::from_bytes(&bytes[..31]), Ok(None));
    assert_eq!(ResizeCheckpoint::from_bytes(&bytes[..32]), Ok(Some(sample())));
    let mut other = bytes.clone();
    other[7] = b'X';
    assert_eq!(ResizeCheckpoint::from_bytes(&other), Ok(None));
    let mut other = bytes.clone();
    other[8] = 2;
    assert_eq!(ResizeCheckpoint::from_bytes(&other), Ok(None));
}

#[test]
fn corrupted_checkpoint_is_an_error() {
    let bytes = sample().to_bytes(512);
    for bit in 0..32 {
        let mut other = bytes.clone();
        other[28 + bit / 8] ^= 1 << (bit % 8);
        assert_eq!(ResizeCheckpoint::from_bytes(&other), Err(Error::CheckpointCorrupted));
    }
    let mut other = bytes.clone();
    other[13] ^= 0x40;
    assert_eq!(ResizeCheckpoint::from_bytes(&other), Err(Error::CheckpointCorrupted));
    // the padding is covered by the CRC too
    let mut other = bytes.clone();
    other[10] = 1;
    assert_eq!(ResizeCheckpoint::from_bytes(&other), Err(Error::CheckpointCorrupted));
    // bytes behind the record are not
    let mut other = bytes.clone();
    other[32] = 1;
    assert_eq!(ResizeCheckpoint::from_bytes(&other), Ok(Some(sample())));
}

#[test]
fn unknown_phase_with_matching_crc_is_corrupted() {
    let mut bytes = sample().to_bytes(512);
    bytes[9] = 3;
    let crc = crc32fast::hash(&bytes[..28]);
    bytes[28..32].copy_from_slice(&crc.to_le_bytes());
    assert_eq!(ResizeCheckpoint::from_bytes(&bytes), Err(Error::CheckpointCorrupted));
}

#[test]
fn decoding_goes_by_the_crc_that_is_handed_in() {
    let bytes = sample().to_bytes_with_crc(512, 0xDEADBEEF);
    assert_eq!(&bytes[28..32], &0xDEADBEEFu32.to_le_bytes());
    assert_eq!(ResizeCheckpoint::from_bytes_with_crc(&bytes, 0xDEADBEEF), Ok(Some(sample())));
    assert_eq!(
        ResizeCheckpoint::from_bytes_with_crc(&bytes, 0xDEADBEEE),
        Err(Error::CheckpointCorrupted)
    );
    assert_eq!(ResizeCheckpoint::from_bytes(&bytes), Err(Error::CheckpointCorrupted));
}

#[test]
fn phase_bytes() {
    assert_eq!(ResizePhase::Started.to_u8(), 0);
    assert_eq!(ResizePhase::DataCopied.to_u8(), 1);
    assert_eq!(ResizePhase::FatWritten.to_u8(), 2);
    assert_eq!(ResizePhase::from_u8(2), Some(ResizePhase::FatWritten));
    assert_eq!(ResizePhase::from_u8(3), None);
    assert!(ResizePhase::Started < ResizePhase::DataCopied);
    assert!(ResizePhase::DataCopied < ResizePhase::FatWritten);
}
