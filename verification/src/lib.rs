//! Building bootable Xpenology loader USB sticks: device safety rules, loader
//! release resolution, partition-table analysis, and the write/clone pipeline.
pub mod checksum;
pub mod clock;
pub mod commands;
pub mod cloner;
pub mod device;
pub mod download;
pub mod fetch;
pub mod fake;
pub mod hash;
pub mod layout;
pub mod loader;
pub mod model;
pub mod pipeline;
pub mod prep;
pub mod progress;
pub mod runner;
pub mod safety;
pub mod sink;
pub mod source;
pub mod text;
pub mod unpack;
pub mod win;
