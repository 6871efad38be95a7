//! Registry, detection and environment-reconciliation logic for managing
//! several installed Java Development Kits on one machine.
//!
//! - `detector`: recognising a JDK directory and reading its version probe.
//! - `config`: the registry of records by version key, with its pointer to
//!   the current version.
//! - `manager`: refreshing the registry, listing it in display order,
//!   switching, and classifying what is active against `JAVA_HOME`.
//! - `env`: the text each activation mechanism writes (shell start-up file
//!   lines, the Windows search-path value).
//! - `downloader`: choosing packages, file types and archive formats.
//! - `platform`, `text`, `error`, `cli`: shared vocabulary.

pub mod text;
pub mod config;
pub mod detector;
pub mod error;
pub mod platform;
pub mod env;
pub mod manager;
pub mod downloader;
pub mod cli;
