//! The core of a personal package manager: the rules by which declared
//! packages are resolved to release assets, recorded in a lock, and installed.

pub mod cli;
pub mod config;
pub mod context;
pub mod lock;
pub mod provider;
pub mod text;
pub mod util;
