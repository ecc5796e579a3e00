//! A package manager library for Debian-style repositories: control-file
//! parsing, the local package cache, dependency resolution, repository
//! sources and operating-system detection.

pub mod cache;
pub mod config;
pub mod deb_package;
pub mod dependencies;
pub mod errors;
pub mod graph;
pub mod install;
pub mod os_fingerprint;
pub mod package;
pub mod packages;
pub mod remove;
pub mod signatures;
pub mod sources;
pub mod status_db;
pub mod text;
pub mod update;
pub mod utils;
