//! Tweet data model, reply-thread reconstruction and analysis.

pub mod coverage_analysis;
pub mod data_structures;
pub mod keyed;
pub mod mvp_analyzer;
pub mod reply_threads;
pub mod thread_coverage;
