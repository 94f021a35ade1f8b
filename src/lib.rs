//! File-access observation library: decoding of kernel notification batches,
//! process identity snapshots read from the proc filesystem, container
//! attribution, deduplication and assembly of event records.

pub mod text;
pub mod num;
pub mod types;
pub mod status;
pub mod process;
pub mod container;
pub mod fanotify;
pub mod cli;
pub mod check;
pub mod event;
