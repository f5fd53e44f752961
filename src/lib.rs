//! Per-device network activity by hour of day, from captured link-layer
//! traffic: frames are decoded, their hardware addresses resolved through a
//! directory of devices, and the resulting events binned by hour, either per
//! device or day, or as a median profile over many days.

pub mod address;
pub mod capture;
pub mod folder;
pub mod hourly;
pub mod run;
