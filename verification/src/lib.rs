//! Session logic for embedding an in-process buttplug client inside a
//! Garry's Mod module.

pub mod text;
pub mod version;
pub mod lifecycle;
pub mod device;
pub mod session;
pub mod xtask;
pub mod logging;
pub mod runtime;
pub mod lockfile;
pub mod directive;
pub mod envfilter;
