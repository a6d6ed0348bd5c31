//! Verified core of the bava music visualizer: configuration rules and the
//! browser config store, the web query-string command line, capture
//! bookkeeping, analysis-plan geometry, offline-recording arithmetic, drawing
//! mode and bar layout logic, mesh indices, now-playing decisions and
//! profiling bookkeeping.

use vstd::prelude::*;

pub mod capture;
pub mod color;
pub mod config;
pub mod dsp;
pub mod keys;
pub mod mesh;
pub mod now_playing;
pub mod profiling;
pub mod query;
pub mod record;
pub mod store;
pub mod text;
pub mod vis;

