//! Incremental state synchronisation for a Z-Wave gateway's JSON data
//! endpoints: full snapshots, timestamped deltas, and typed device views.

pub mod client;
pub mod command_class;
pub mod command_classes;
pub mod device;
pub mod device_update;
pub mod error;
pub mod json;
pub mod path;
pub mod response;
pub mod sensors;

pub use command_class::CommandClass;
pub use command_classes::CommandClasses;
pub use device::Device;
pub use device_update::{DeviceUpdate, UpdateGroups};
pub use error::RazberryError;
pub use json::JsonValue;
pub mod scan;
