//! The error taxonomy of the resize core.

use vstd::prelude::*;

verus! {

/// Why a boot sector was rejected.
#[derive(Debug, Clone, PartialEq, Eq)]
pub enum BootSectorFault {
    /// Fewer bytes than the smallest sector; carries the length seen.
    TooSmall(usize),
    /// The boot signature is neither valid nor an accepted invalidated one.
    Signature(u16),
    /// Bytes per sector is not 512, 1024, 2048 or 4096.
    BytesPerSector(u16),
    /// Sectors per cluster is not a power of two in 1..=128.
    SectorsPerCluster(u8),
    /// The reserved sector count is zero.
    ReservedSectors,
    /// The number of FATs is not 1 or 2.
    FatCount(u8),
    /// The 32-bit total sector count is zero.
    TotalSectors,
    /// The 32-bit FAT size is zero.
    FatSize,
    /// The root cluster is below 2.
    RootCluster(u32),
    /// The media type is not 0xF0 or in 0xF8..=0xFF.
    MediaType(u8),
}

/// Why a volume is not FAT32.
#[derive(Debug, Clone, PartialEq, Eq)]
pub enum Fat32Fault {
    /// The root entry count is non-zero.
    RootEntryCount,
    /// The 16-bit total sector count is non-zero.
    TotalSectors16,
    /// The 16-bit FAT size is non-zero.
    FatSize16,
    /// Too few data clusters for FAT32; carries the count.
    ClusterCount(u32),
}

/// Why an FSInfo sector was rejected.
#[derive(Debug, Clone, PartialEq, Eq)]
pub enum FsInfoFault {
    /// Fewer bytes than the smallest sector; carries the length seen.
    TooSmall(usize),
    /// Wrong lead signature; carries the value seen.
    LeadSignature(u32),
    /// Wrong structure signature; carries the value seen.
    StructSignature(u32),
    /// Wrong trail signature; carries the value seen.
    TrailSignature(u32),
}

/// Why a size calculation failed.
#[derive(Debug, Clone, PartialEq, Eq)]
pub enum CalculationFault {
    /// The device has more sectors than a 32-bit count can hold.
    DeviceTooLarge(u64),
    /// The grown volume would have too few clusters for FAT32.
    ClusterCount(u32),
    /// The divisor of the FAT size formula is zero.
    ZeroDivisor,
}

/// What went wrong in a device access.
#[derive(Debug, Clone, PartialEq, Eq)]
pub enum IoFault {
    /// The data handed to a write has the wrong length.
    InvalidInput,
    /// The access reaches beyond the end of the device.
    OutOfRange,
    /// Any other failure of the underlying device.
    Other,
}

/// All errors of the resize core. Each is fatal to the current run.
#[derive(Debug, Clone, PartialEq, Eq)]
pub enum Error {
    DeviceNotFound(String),
    DeviceMounted(String, String),
    InvalidFAT32(Fat32Fault),
    BootSectorValidation(BootSectorFault),
    FSInfoValidation(FsInfoFault),
    BackupMismatch,
    DeviceTooSmall { current: u64, minimum: u64 },
    AlreadyMaxSize,
    ShrinkNotSupported,
    Io(IoFault),
    Calculation(CalculationFault),
    Relocation(String),
    Verification(String),
    ClusterInUse(u32),
    NoFreeCluster,
    UnsupportedSectorSize(u32),
    CorruptedFAT(u32),
    CheckpointCorrupted,
    InvalidatedFilesystem,
    ResizeSizeMismatch(u8),
}

} // verus!
