//! The crash-recovery record: a 32-byte checkpoint that lives in the last
//! sector of the device while a resize is under way.
//!
//! Layout, little-endian: magic `FAT32RSZ` (8), version (1), phase (1),
//! padding (2), old total sectors (4), new total sectors (4), old FAT size
//! (4), new FAT size (4), CRC-32 of the 28 bytes before it (4). The rest of
//! the sector is zero.

use crate::error::Error;
use crate::fat32::layout::{le_u32, lemma_le_u32_at, read_u32_le, u32_le_bytes, write_u32_le};
use vstd::prelude::*;
use vstd::slice::slice_subrange;

verus! {

/// The version of the record layout.
pub const CHECKPOINT_VERSION: u8 = 1;

/// The bytes of a record that the CRC covers.
pub const CHECKPOINT_DATA_SIZE: usize = 28;

/// The bytes of a whole record, CRC included.
pub const CHECKPOINT_SIZE: usize = 32;

/// The magic that opens a record: the ASCII letters `FAT32RSZ`.
pub open spec fn checkpoint_magic() -> Seq<u8> {
    seq![0x46u8, 0x41u8, 0x54u8, 0x33u8, 0x32u8, 0x52u8, 0x53u8, 0x5Au8]
}

/// How far a resize has come. A resumed run restarts at the phase that the
/// checkpoint names.
#[derive(Debug, Clone, Copy, PartialEq, Eq, Structural, PartialOrd, Ord)]
pub enum ResizePhase {
    /// The data shift may be under way; the boot sector is still valid.
    Started,
    /// The data is shifted; the boot sector is or will be invalidated.
    DataCopied,
    /// The FATs are written; the boot sector is about to be restored.
    FatWritten,
}

impl ResizePhase {
    /// The byte that stands for a phase in the record.
    pub open spec fn spec_to_u8(self) -> u8 {
        match self {
            ResizePhase::Started => 0,
            ResizePhase::DataCopied => 1,
            ResizePhase::FatWritten => 2,
        }
    }

    /// The phase that a byte of the record stands for.
    pub open spec fn spec_from_u8(val: u8) -> Option<ResizePhase> {
        if val == 0 {
            Some(ResizePhase::Started)
        } else if val == 1 {
            Some(ResizePhase::DataCopied)
        } else if val == 2 {
            Some(ResizePhase::FatWritten)
        } else {
            None
        }
    }

    /// The byte that stands for the phase in the record.
    pub fn to_u8(self) -> (r: u8)
        ensures
            r == self.spec_to_u8(),
            Self::spec_from_u8(r) == Some(self),
    {
        match self {
            ResizePhase::Started => 0,
            ResizePhase::DataCopied => 1,
            ResizePhase::FatWritten => 2,
        }
    }

    /// The phase that a byte of the record stands for, if any.
    pub fn from_u8(val: u8) -> (r: Option<Self>)
        ensures
            r == Self::spec_from_u8(val),
    {
        match val {
            0 => Some(ResizePhase::Started),
            1 => Some(ResizePhase::DataCopied),
            2 => Some(ResizePhase::FatWritten),
            _ => None,
        }
    }
}

/// What a resumed run needs to know of the run that was interrupted.
#[derive(Debug, Clone, Copy, PartialEq, Eq)]
pub struct ResizeCheckpoint {
    /// The phase that was entered last.
    pub phase: ResizePhase,
    /// Total sectors of the volume before the resize.
    pub old_total_sectors: u32,
    /// Total sectors that the resize aims at.
    pub new_total_sectors: u32,
    /// Sectors per FAT before the resize.
    pub old_fat_size: u32,
    /// Sectors per FAT after the resize.
    pub new_fat_size: u32,
}

/// The 28 bytes of a record that the CRC covers.
pub open spec fn checkpoint_data(cp: ResizeCheckpoint) -> Seq<u8> {
    checkpoint_magic() + seq![CHECKPOINT_VERSION, cp.phase.spec_to_u8(), 0u8, 0u8] + u32_le_bytes(
        cp.old_total_sectors,
    ) + u32_le_bytes(cp.new_total_sectors) + u32_le_bytes(cp.old_fat_size) + u32_le_bytes(
        cp.new_fat_size,
    )
}

/// A sector of `sector_size` bytes that holds the record of `cp` with
/// `crc` in the CRC field, and zeros behind it.
pub open spec fn checkpoint_sector(cp: ResizeCheckpoint, crc: u32, sector_size: nat) -> Seq<u8> {
    checkpoint_data(cp) + u32_le_bytes(crc) + Seq::new(
        (sector_size - CHECKPOINT_SIZE) as nat,
        |i: int| 0u8,
    )
}

/// What a buffer holds, given the CRC-32 `computed_crc` of its first 28
/// bytes: no record where it is too short or magic or version differ; a
/// corrupted record where the stored CRC differs or no phase has the phase
/// byte; else the record.
pub open spec fn decode_checkpoint(data: Seq<u8>, computed_crc: u32) -> Result<
    Option<ResizeCheckpoint>,
    Error,
> {
    if data.len() < CHECKPOINT_SIZE {
        Ok(None)
    } else if data.subrange(0, 8) != checkpoint_magic() {
        Ok(None)
    } else if data[8] != CHECKPOINT_VERSION {
        Ok(None)
    } else if le_u32(data, 28) != computed_crc {
        Err(Error::CheckpointCorrupted)
    } else {
        match ResizePhase::spec_from_u8(data[9]) {
            None => Err(Error::CheckpointCorrupted),
            Some(phase) => Ok(
                Some(
                    ResizeCheckpoint {
                        phase,
                        old_total_sectors: le_u32(data, 12),
                        new_total_sectors: le_u32(data, 16),
                        old_fat_size: le_u32(data, 20),
                        new_fat_size: le_u32(data, 24),
                    },
                ),
            ),
        }
    }
}

/// The CRC-32 of a byte sequence, with the IEEE polynomial: the checksum
/// of gzip and PNG.
pub uninterp spec fn crc32_ieee(bytes: Seq<u8>) -> u32;

/// `crc32fast::hash` computes the CRC-32 (IEEE) of the buffer. The result
/// depends on the bytes alone, whichever implementation the crate picks
/// for the processor at hand.
pub assume_specification[ crc32fast::hash ](buf: &[u8]) -> (r: u32)
    ensures
        r == crc32_ieee(buf@),
;

/// What a buffer holds as a checkpoint.
pub open spec fn parse_checkpoint(data: Seq<u8>) -> Result<Option<ResizeCheckpoint>, Error> {
    decode_checkpoint(data, crc32_ieee(data.subrange(0, CHECKPOINT_DATA_SIZE as int)))
}

/// The sector that holds the record of `cp`.
pub open spec fn checkpoint_bytes(cp: ResizeCheckpoint, sector_size: nat) -> Seq<u8> {
    checkpoint_sector(cp, crc32_ieee(checkpoint_data(cp)), sector_size)
}

/// A record that was written is read back as it was, whatever the sector
/// size.
pub proof fn lemma_checkpoint_round_trip(cp: ResizeCheckpoint, sector_size: nat)
    requires
        sector_size >= CHECKPOINT_SIZE,
    ensures
        checkpoint_bytes(cp, sector_size).len() == sector_size,
        parse_checkpoint(checkpoint_bytes(cp, sector_size)) == Ok::<
            Option<ResizeCheckpoint>,
            Error,
        >(Some(cp)),
{
    let crc = crc32_ieee(checkpoint_data(cp));
    let data = checkpoint_bytes(cp, sector_size);
    assert(checkpoint_data(cp).len() == 28);
    assert(data.subrange(0, 28) =~= checkpoint_data(cp));
    assert(data.subrange(0, 8) =~= checkpoint_magic());
    lemma_sector_fields(cp, crc, sector_size);
}

/// The fields of a record sector read back as the values that went in.
pub proof fn lemma_sector_fields(cp: ResizeCheckpoint, crc: u32, sector_size: nat)
    requires
        sector_size >= CHECKPOINT_SIZE,
    ensures
        checkpoint_sector(cp, crc, sector_size).len() == sector_size,
        checkpoint_sector(cp, crc, sector_size)[8] == CHECKPOINT_VERSION,
        checkpoint_sector(cp, crc, sector_size)[9] == cp.phase.spec_to_u8(),
        le_u32(checkpoint_sector(cp, crc, sector_size), 12) == cp.old_total_sectors,
        le_u32(checkpoint_sector(cp, crc, sector_size), 16) == cp.new_total_sectors,
        le_u32(checkpoint_sector(cp, crc, sector_size), 20) == cp.old_fat_size,
        le_u32(checkpoint_sector(cp, crc, sector_size), 24) == cp.new_fat_size,
        le_u32(checkpoint_sector(cp, crc, sector_size), 28) == crc,
        ResizePhase::spec_from_u8(cp.phase.spec_to_u8()) == Some(cp.phase),
{
    let data = checkpoint_sector(cp, crc, sector_size);
    let head = checkpoint_magic() + seq![CHECKPOINT_VERSION, cp.phase.spec_to_u8(), 0u8, 0u8];
    let f0 = u32_le_bytes(cp.old_total_sectors);
    let f1 = u32_le_bytes(cp.new_total_sectors);
    let f2 = u32_le_bytes(cp.old_fat_size);
    let f3 = u32_le_bytes(cp.new_fat_size);
    let f4 = u32_le_bytes(crc);
    let zeros = Seq::new((sector_size - CHECKPOINT_SIZE) as nat, |i: int| 0u8);
    assert(head.len() == 12);
    assert(data == head + f0 + f1 + f2 + f3 + f4 + zeros);
    assert(data.len() == sector_size);
    assert(data.subrange(12, 16) =~= f0);
    assert(data.subrange(16, 20) =~= f1);
    assert(data.subrange(20, 24) =~= f2);
    assert(data.subrange(24, 28) =~= f3);
    assert(data.subrange(28, 32) =~= f4);
    lemma_le_u32_at(data, 12, cp.old_total_sectors);
    lemma_le_u32_at(data, 16, cp.new_total_sectors);
    lemma_le_u32_at(data, 20, cp.old_fat_size);
    lemma_le_u32_at(data, 24, cp.new_fat_size);
    lemma_le_u32_at(data, 28, crc);
}

impl ResizeCheckpoint {
    /// A checkpoint of the given phase and sizes.
    pub fn new(
        phase: ResizePhase,
        old_total_sectors: u32,
        new_total_sectors: u32,
        old_fat_size: u32,
        new_fat_size: u32,
    ) -> (r: Self)
        ensures
            r == (ResizeCheckpoint {
                phase,
                old_total_sectors,
                new_total_sectors,
                old_fat_size,
                new_fat_size,
            }),
    {
        ResizeCheckpoint { phase, old_total_sectors, new_total_sectors, old_fat_size, new_fat_size }
    }

    /// The sector that holds the record with `crc` in its CRC field.
    pub fn to_bytes_with_crc(&self, sector_size: usize, crc: u32) -> (r: Vec<u8>)
        requires
            sector_size >= CHECKPOINT_SIZE,
        ensures
            r@ == checkpoint_sector(*self, crc, sector_size as nat),
    {
        let mut data: Vec<u8> = vec![0u8; sector_size];
        data[0] = 0x46;
        data[1] = 0x41;
        data[2] = 0x54;
        data[3] = 0x33;
        data[4] = 0x32;
        data[5] = 0x52;
        data[6] = 0x53;
        data[7] = 0x5A;
        data[8] = CHECKPOINT_VERSION;
        data[9] = self.phase.to_u8();
        write_u32_le(&mut data, 12, self.old_total_sectors);
        write_u32_le(&mut data, 16, self.new_total_sectors);
        write_u32_le(&mut data, 20, self.old_fat_size);
        write_u32_le(&mut data, 24, self.new_fat_size);
        write_u32_le(&mut data, 28, crc);
        assert(data@ =~= checkpoint_sector(*self, crc, sector_size as nat));
        data
    }

    /// Serializes the checkpoint into a sector of `sector_size` bytes: the
    /// record, its CRC-32, and zeros.
    pub fn to_bytes(&self, sector_size: usize) -> (r: Vec<u8>)
        requires
            sector_size >= CHECKPOINT_SIZE,
        ensures
            r@ == checkpoint_bytes(*self, sector_size as nat),
    {
        let unsealed: Vec<u8> = self.to_bytes_with_crc(sector_size, 0);
        let crc: u32 = crc32fast::hash(slice_subrange(unsealed.as_slice(), 0, CHECKPOINT_DATA_SIZE));
        assert(unsealed@.subrange(0, 28) =~= checkpoint_data(*self));
        self.to_bytes_with_crc(sector_size, crc)
    }

    /// Reads a record from `data`, given the CRC-32 of the first 28 bytes
    /// of `data`.
    pub fn from_bytes_with_crc(data: &[u8], computed_crc: u32) -> (r: Result<Option<Self>, Error>)
        ensures
            r == decode_checkpoint(data@, computed_crc),
    {
        if data.len() < CHECKPOINT_SIZE {
            return Ok(None);
        }
        if !(data[0] == 0x46 && data[1] == 0x41 && data[2] == 0x54 && data[3] == 0x33 && data[4]
            == 0x32 && data[5] == 0x52 && data[6] == 0x53 && data[7] == 0x5A) {
            assert(data@.subrange(0, 8) != checkpoint_magic()) by {
                if data@.subrange(0, 8) == checkpoint_magic() {
                    assert(forall|i: int| 0 <= i < 8 ==> data@.subrange(0, 8)[i] == data@[i]);
                }
            }
            return Ok(None);
        }
        assert(data@.subrange(0, 8) =~= checkpoint_magic());
        if data[8] != CHECKPOINT_VERSION {
            return Ok(None);
        }
        let stored_crc: u32 = read_u32_le(data, 28);
        if stored_crc != computed_crc {
            return Err(Error::CheckpointCorrupted);
        }
        let phase = match ResizePhase::from_u8(data[9]) {
            Some(phase) => phase,
            None => {
                return Err(Error::CheckpointCorrupted);
            },
        };
        let old_total_sectors: u32 = read_u32_le(data, 12);
        let new_total_sectors: u32 = read_u32_le(data, 16);
        let old_fat_size: u32 = read_u32_le(data, 20);
        let new_fat_size: u32 = read_u32_le(data, 24);
        Ok(
            Some(
                ResizeCheckpoint {
                    phase,
                    old_total_sectors,
                    new_total_sectors,
                    old_fat_size,
                    new_fat_size,
                },
            ),
        )
    }

    /// Reads a record from the start of `data`. Gives `None` where `data`
    /// holds no record of this version, and fails where it holds one that
    /// is corrupted.
    pub fn from_bytes(data: &[u8]) -> (r: Result<Option<Self>, Error>)
        ensures
            r == parse_checkpoint(data@),
    {
        if data.len() < CHECKPOINT_SIZE {
            return Ok(None);
        }
        let computed_crc: u32 = crc32fast::hash(slice_subrange(data, 0, CHECKPOINT_DATA_SIZE));
        Self::from_bytes_with_crc(data, computed_crc)
    }
}

} // verus!
