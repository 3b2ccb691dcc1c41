//! Tweet-Scrolls: turns a Twitter archive into readable thread exports.
//!
//! The library holds the archive data model, reply-thread reconstruction,
//! the text renderings of threads, the semantic splitting of an export into
//! size-limited parts, the export view state machine, and small analysis
//! helpers. Reading and writing files is left to the application around it.

pub mod cli;
pub mod mac_app;
pub mod models;
pub mod processing;
pub mod sort;
pub mod text;
pub mod thread_export;
pub mod utils;
