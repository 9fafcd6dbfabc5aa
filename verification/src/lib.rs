//! Skyforge: a layered, convention-driven configuration compiler.
//!
//! A device's effective configuration is merged from up to five YAML layers
//! (partitional, regional, common, zonal, device) whose paths are derived
//! from the device file's location alone. The path derivation, the merge
//! with its precedence order, the device discovery filter and the
//! per-device orchestration are all verified here; file reading, argument
//! parsing and output writing live outside the library.
pub mod cli;
pub mod log;
pub mod merge;
pub mod paths;
pub mod pattern;
pub mod specs;
pub mod tmpls;
pub mod text;
pub mod yaml;
