//! A reader for raw disks and disk images, built around a sparse index of
//! the sectors that hold data.
//!
//! The index records, one bit per sector, which sectors of a device hold a
//! non-zero byte. Long runs of empty sectors are not stored at all, so the
//! index of a sparse device stays small, and the questions "is this sector
//! occupied?" and "where is the next occupied sector?" are answered without
//! reading the device again.
//!
//! - [`codec`]: sector addresses written on four to eight bytes.
//! - [`segment`]: a run of sectors with its bitmap, and its persisted record.
//! - [`sector_map`]: the ordered segments; queries, and the persisted index.
//! - [`sector`]: sector sizes, and the classification of sectors as empty or
//!   occupied.
//! - [`scanner`]: building a map from classifications taken in address order.
//! - [`pipeline`]: the hand-over of the two scan buffers between the reader
//!   and the workers.
//! - [`data`]: the buffers that device data is read into.
//! - [`command`], [`pattern`], [`number`], [`text`]: the commands of the
//!   user, read from lines of text.
//! - [`session`]: what a command does to the reading position.
//! - [`disk_info`], [`command_line`], [`format`]: the disks of the machine as
//!   a table of text, and the user's choice among them.
//! - [`error`]: the failures of the index engine.

pub mod codec;
pub mod command;
pub mod command_line;
pub mod data;
pub mod disk_info;
pub mod error;
pub mod format;
pub mod math_util;
pub mod number;
pub mod pattern;
pub mod pipeline;
pub mod scanner;
pub mod sector;
pub mod sector_map;
pub mod segment;
pub mod session;
pub mod text;
