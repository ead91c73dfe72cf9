//! Verified core of the KimaiTray desktop companion.
pub mod text;
pub mod json;
pub mod kde;
pub mod idle;
pub mod idle_stats;
pub mod platform;
pub mod tray;
pub mod store;
pub mod kconfig_lock;
pub mod startup;
