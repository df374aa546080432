//! Spacecraft: the verified core of an extensible desktop workbench Host.
//!
//! The library holds the Host's decisions (window registry, Window Groups,
//! Workspace capture and restore, Plugin registry and install flow), the
//! permissioned Bus, Manifest validation and the minimal JSON contract checker.
//! Operating-system work (windows, files, processes) is reached through the
//! `Platform` boundary or performed by the caller with the values returned here.

pub mod json;
pub mod text;
pub mod manifest;
pub mod bus;
pub mod workspace;
pub mod install;
pub mod zip_package;
pub mod ids;
pub mod sidecar_bridge;
pub mod host;
pub mod plugin_windows;
pub mod window_groups;
pub mod restore;
pub mod install_flow;
pub mod platform;
pub mod memory_platform;
