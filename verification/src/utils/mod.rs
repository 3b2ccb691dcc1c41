//! Tweet classification, CSV records and file-splitting helpers.

pub mod enhanced_csv_writer;
pub mod file_splitter;
pub mod tweet_classifier;
