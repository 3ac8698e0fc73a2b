//! Snapshot lifecycle management for a copy-on-write volume manager.
pub mod catalog;
pub mod command;
pub mod config;
pub mod endpoint;
pub mod error;
pub mod integrity;
pub mod lvm;
pub mod naming;
pub mod props;
pub mod replicate;
pub mod sudo;
pub mod text;
pub mod zfs;

pub use zfs::{RBack, ZFS};
