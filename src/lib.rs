//! Deferred deletion: files are moved into a managed safe storage, tracked
//! with an expiry time, and purged once their retention has run out.
pub mod args;
pub mod checksum;
pub mod clock;
pub mod codec;
pub mod config;
pub mod error;
pub mod file_manager;
pub mod paths;
pub mod srm;
pub mod storage;
pub mod sweeper;
pub mod utils;
