//! The log of a resize: what a run did, step by step, and the text of
//! each step for a human reader.

use crate::resize::checkpoint::ResizePhase;
use crate::text::{decimal, decimal_text};
use vstd::prelude::*;
use vstd::string::StringExecFns;

verus! {

/// One step of a resize run, as the log records it.
#[derive(Debug, Clone, Copy, PartialEq, Eq)]
pub enum Operation {
    ReadBootSector { bytes_per_sector: u16 },
    DetectedIncompleteResize { phase: ResizePhase },
    VerifiedBackupBootSector { sector: u16 },
    ReadFsInfo { sector: u16 },
    CalculatedResize { old_total_sectors: u32, new_total_sectors: u32 },
    ReadFatTable { entries: u64 },
    FatNeedsGrowth { sectors: u32 },
    PlannedDataShift { clusters: u64, bytes: u64 },
    WroteCheckpointStarted,
    ShiftedClusters { clusters: u64 },
    VerifiedDataShift,
    UpdatedCheckpointDataCopied,
    SkippedDataShift,
    InvalidatedBootSector,
    InitializedFatSectors,
    SyncedFatCopies,
    UpdatedCheckpointFatWritten,
    SkippedFatOperations,
    DryRunWouldShift,
    UpdatedBootSector,
    UpdatedBackupBootSector,
    UpdatedFsInfo { free_clusters: u32 },
    ClearedCheckpoint,
    SyncedChanges,
    DryRunNoChanges,
}

/// The name of a phase.
pub open spec fn phase_text(phase: ResizePhase) -> Seq<char> {
    match phase {
        ResizePhase::Started => "Started"@,
        ResizePhase::DataCopied => "DataCopied"@,
        ResizePhase::FatWritten => "FatWritten"@,
    }
}

/// The text of a log entry.
pub open spec fn operation_text(op: Operation) -> Seq<char> {
    match op {
        Operation::ReadBootSector { bytes_per_sector } => "Read boot sector ("@ + decimal_text(
            bytes_per_sector as nat,
        ) + "-byte sectors)"@,
        Operation::DetectedIncompleteResize { phase } => "Detected incomplete resize at phase "@
            + phase_text(phase),
        Operation::VerifiedBackupBootSector { sector } => "Verified backup boot sector at sector "@
            + decimal_text(sector as nat),
        Operation::ReadFsInfo { sector } => "Read FSInfo from sector "@ + decimal_text(
            sector as nat,
        ),
        Operation::CalculatedResize { old_total_sectors, new_total_sectors } =>
            "Calculated resize: "@ + decimal_text(old_total_sectors as nat) + " -> "@
                + decimal_text(new_total_sectors as nat) + " sectors"@,
        Operation::ReadFatTable { entries } => "Read FAT table ("@ + decimal_text(entries as nat)
            + " entries)"@,
        Operation::FatNeedsGrowth { sectors } => "FAT needs to grow by "@ + decimal_text(
            sectors as nat,
        ) + " sectors"@,
        Operation::PlannedDataShift { clusters, bytes } => "Planned data shift for "@
            + decimal_text(clusters as nat) + " clusters ("@ + decimal_text(bytes as nat)
            + " bytes)"@,
        Operation::WroteCheckpointStarted => "Wrote checkpoint (phase 0: started)"@,
        Operation::ShiftedClusters { clusters } => "Shifted "@ + decimal_text(clusters as nat)
            + " clusters forward"@,
        Operation::VerifiedDataShift => "Verified data shift"@,
        Operation::UpdatedCheckpointDataCopied => "Updated checkpoint (phase 1: data copied)"@,
        Operation::SkippedDataShift => "Skipping data shift (already done)"@,
        Operation::InvalidatedBootSector => "Invalidated boot sector (danger zone)"@,
        Operation::InitializedFatSectors => "Initialized new FAT sectors"@,
        Operation::SyncedFatCopies => "Synced FAT copies"@,
        Operation::UpdatedCheckpointFatWritten => "Updated checkpoint (phase 2: FAT written)"@,
        Operation::SkippedFatOperations => "Skipping FAT operations (already done)"@,
        Operation::DryRunWouldShift => "Dry run: would shift cluster data"@,
        Operation::UpdatedBootSector => "Updated boot sector (signature restored)"@,
        Operation::UpdatedBackupBootSector => "Updated backup boot sector"@,
        Operation::UpdatedFsInfo { free_clusters } => "Updated FSInfo (free clusters: "@
            + decimal_text(free_clusters as nat) + ")"@,
        Operation::ClearedCheckpoint => "Cleared checkpoint"@,
        Operation::SyncedChanges => "Synced changes to disk"@,
        Operation::DryRunNoChanges => "Dry run: no changes made"@,
    }
}

/// The texts of a list of strings.
pub open spec fn texts(lines: Seq<String>) -> Seq<Seq<char>> {
    Seq::new(lines.len(), |i: int| lines[i]@)
}

/// The texts of a list of log entries.
pub open spec fn log_texts(log: Seq<Operation>) -> Seq<Seq<char>> {
    Seq::new(log.len(), |i: int| operation_text(log[i]))
}

/// The name of a phase.
pub fn phase_name(phase: ResizePhase) -> (r: String)
    ensures
        r@ == phase_text(phase),
{
    match phase {
        ResizePhase::Started => String::from_str("Started"),
        ResizePhase::DataCopied => String::from_str("DataCopied"),
        ResizePhase::FatWritten => String::from_str("FatWritten"),
    }
}

/// `prefix`, the decimal digits of `n`, and `suffix`, in a row.
fn around_number(prefix: &str, n: u64, suffix: &str) -> (r: String)
    ensures
        r@ == prefix@ + decimal_text(n as nat) + suffix@,
{
    String::from_str(prefix).concat(decimal(n).as_str()).concat(suffix)
}

impl Operation {
    /// The text of the entry for a human reader.
    pub fn describe(&self) -> (r: String)
        ensures
            r@ == operation_text(*self),
    {
        match *self {
            Operation::ReadBootSector { bytes_per_sector } => around_number(
                "Read boot sector (",
                bytes_per_sector as u64,
                "-byte sectors)",
            ),
            Operation::DetectedIncompleteResize { phase } => String::from_str(
                "Detected incomplete resize at phase ",
            ).concat(phase_name(phase).as_str()),
            Operation::VerifiedBackupBootSector { sector } => String::from_str(
                "Verified backup boot sector at sector ",
            ).concat(decimal(sector as u64).as_str()),
            Operation::ReadFsInfo { sector } => String::from_str("Read FSInfo from sector ").concat(
                decimal(sector as u64).as_str(),
            ),
            Operation::CalculatedResize { old_total_sectors, new_total_sectors } => around_number(
                "Calculated resize: ",
                old_total_sectors as u64,
                " -> ",
            ).concat(decimal(new_total_sectors as u64).as_str()).concat(" sectors"),
            Operation::ReadFatTable { entries } => around_number(
                "Read FAT table (",
                entries,
                " entries)",
            ),
            Operation::FatNeedsGrowth { sectors } => around_number(
                "FAT needs to grow by ",
                sectors as u64,
                " sectors",
            ),
            Operation::PlannedDataShift { clusters, bytes } => around_number(
                "Planned data shift for ",
                clusters,
                " clusters (",
            ).concat(decimal(bytes).as_str()).concat(" bytes)"),
            Operation::WroteCheckpointStarted => String::from_str(
                "Wrote checkpoint (phase 0: started)",
            ),
            Operation::ShiftedClusters { clusters } => around_number(
                "Shifted ",
                clusters,
                " clusters forward",
            ),
            Operation::VerifiedDataShift => String::from_str("Verified data shift"),
            Operation::UpdatedCheckpointDataCopied => String::from_str(
                "Updated checkpoint (phase 1: data copied)",
            ),
            Operation::SkippedDataShift => String::from_str("Skipping data shift (already done)"),
            Operation::InvalidatedBootSector => String::from_str(
                "Invalidated boot sector (danger zone)",
            ),
            Operation::InitializedFatSectors => String::from_str("Initialized new FAT sectors"),
            Operation::SyncedFatCopies => String::from_str("Synced FAT copies"),
            Operation::UpdatedCheckpointFatWritten => String::from_str(
                "Updated checkpoint (phase 2: FAT written)",
            ),
            Operation::SkippedFatOperations => String::from_str(
                "Skipping FAT operations (already done)",
            ),
            Operation::DryRunWouldShift => String::from_str("Dry run: would shift cluster data"),
            Operation::UpdatedBootSector => String::from_str(
                "Updated boot sector (signature restored)",
            ),
            Operation::UpdatedBackupBootSector => String::from_str("Updated backup boot sector"),
            Operation::UpdatedFsInfo { free_clusters } => around_number(
                "Updated FSInfo (free clusters: ",
                free_clusters as u64,
                ")",
            ),
            Operation::ClearedCheckpoint => String::from_str("Cleared checkpoint"),
            Operation::SyncedChanges => String::from_str("Synced changes to disk"),
            Operation::DryRunNoChanges => String::from_str("Dry run: no changes made"),
        }
    }
}

/// The texts of the entries of a log, in order.
pub fn describe_log(log: &Vec<Operation>) -> (r: Vec<String>)
    ensures
        texts(r@) == log_texts(log@),
{
    let mut lines: Vec<String> = Vec::new();
    let mut i: usize = 0;
    while i < log.len()
        invariant
            i <= log@.len(),
            lines@.len() == i,
            forall|j: int| 0 <= j < i ==> (#[trigger] lines@[j])@ == operation_text(log@[j]),
        decreases log@.len() - i,
    {
        lines.push(log[i].describe());
        i += 1;
    }
    assert(texts(lines@) =~= log_texts(log@));
    lines
}

} // verus!
