//! Image flashing library: block maps, device listings, boot-partition
//! helpers, write planning and the small text formats the flasher speaks.

pub mod text;
pub mod bmap;
pub mod blockplan;
pub mod bootedit;
pub mod bootconfig;
pub mod compression;
pub mod digest;
pub mod drives;
pub mod flash;
pub mod format;
pub mod helper;
pub mod images;
pub mod models;
pub mod order;
pub mod partitions;
pub mod settings;
pub mod write;
