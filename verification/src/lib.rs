//! treeshark: the verified core of a disk-usage hunter.
use vstd::prelude::*;

pub mod text;
pub mod size;
pub mod paths;
pub mod config;
pub mod status;
pub mod paint;
pub mod query;
pub mod resume;
pub mod format;
pub mod listing;
pub mod tally;
pub mod mover;
pub mod scan;

