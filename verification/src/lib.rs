//! The local chart library of a rhythm game, and the favorites kept on top
//! of it.
//!
//! - [`favorites`]: named folders of charts, with a reserved folder that is
//!   always there, and a cover override per folder.
//! - [`reconcile`] and [`data`]: the index of charts on this machine and the
//!   pass that brings it in line with storage when the program starts.
//! - [`local_path`]: the keys by which charts are known.
//! - [`chart`]: the records kept of a chart.
//! - [`page`]: what the folders page decides.
//! - [`laws`]: what holds of the operations, however they are combined.
//!
//! Nothing here reads or writes storage: the caller looks, and hands over
//! what it found.

pub mod chart;
pub mod data;
pub mod favorites;
pub mod laws;
pub mod local_path;
pub mod page;
pub mod reconcile;
pub mod text;
