//! Per-device read and write byte counters, decoded from the lines of the
//! kernel's disk statistics table, `/proc/diskstats`.
//!
//! The caller reads the table and hands its text over. [`get_iostats`]
//! decodes every device and partition. [`get_iostats_physical`] keeps the
//! physical devices only, those with a descriptor under `/sys/block`: the
//! caller looks for the paths that [`descriptor_paths`] lists and hands over
//! the ones that exist.
//!
//! A line with fewer than fourteen fields is passed over. A complete line
//! whose sector counts cannot be read fails the table with a [`StatsError`],
//! which tells the line and the [`Fault`].

pub mod chars;
pub mod decimal;
pub mod descriptor;
pub mod fields;
pub mod lines;
pub mod physical;
pub mod record;
pub mod table;

pub use descriptor::descriptor_path;
pub use physical::{descriptor_paths, get_iostats_physical, parse_line_physical};
pub use record::{parse_line, Fault, IoStats};
pub use table::{get_iostats, StatsError};
