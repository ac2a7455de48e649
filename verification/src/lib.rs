//! A partitioned virtual filesystem with change tracking.

pub mod config;
pub mod fs;
pub mod pathext;
pub mod project;
pub mod roblox;
pub mod route;
pub mod snapshot;
pub mod std_specs;
pub mod text;
pub mod vfs;
pub mod vfs_watch;
pub mod web;
