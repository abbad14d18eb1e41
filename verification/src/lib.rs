//! Verified core of a system monitor: GPU adapter identification (LUIDs),
//! per-GPU counter aggregation, process listing with an icon cache, and
//! human-readable byte sizes.
pub mod text;
pub mod luid;
pub mod wmi_gpu;
pub mod aggregate;
pub mod pdh;
pub mod processes;
pub mod dxgi;
pub mod usage;
pub mod icon;
