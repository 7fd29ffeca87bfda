//! The resize core: size calculation, data-shift planning and the
//! crash-safe protocol.

pub mod calculator;
pub mod checkpoint;
pub mod executor;
pub mod info;
pub mod laws;
pub mod log;
pub mod outcome;
pub mod protocol;
pub mod relocator;
pub mod resume;
pub mod shift;
pub mod success;

pub use calculator::{calculate_fat_size, calculate_new_size, SizeCalculation};
pub use checkpoint::{ResizeCheckpoint, ResizePhase};
pub use relocator::{
    execute_relocation, plan_relocation, relocation_plan, verify_relocation, ClusterMove,
    RelocationPlan,
};
pub use protocol::{ResizeOptions, ResizePlan, ResizeResult};
pub use executor::{resize_fat32, ResizeSession, Stage};
pub use info::{get_fs_info, FSInfoReport};
