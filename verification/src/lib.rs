//! In-place growth of a FAT32 filesystem to the size of its device.
//!
//! The crate holds the on-disk FAT32 model, the size calculator, the
//! data-shift planner and the crash-safe resize protocol. Every function is
//! verified against a contract stated over the raw bytes of the volume.

pub mod device;
pub mod error;
pub mod fat32;
pub mod mounts;
pub mod resize;
pub mod text;
pub mod version;

pub use device::Device;
pub use error::Error;
pub use fat32::{BootSector, FSInfo};
pub use resize::{get_fs_info, resize_fat32, FSInfoReport, ResizeOptions, ResizeResult};
