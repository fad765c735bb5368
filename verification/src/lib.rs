//! Fan control for T2 Macs: presets and fan curves, the stored
//! configuration format, the sysfs fan and temperature model and the
//! systemd autostart steps.
pub mod config;
pub mod config_file;
pub mod error;
pub mod paths;
pub mod service;
pub mod sysfs;
pub mod text;
