//! The summarizer surface: the arguments and run options of the summary
//! phase, and the capability interface a summarizing backend implements.
//! The phase itself runs outside the record-lifecycle engine.

use vstd::prelude::*;

verus! {

/// Command-line configuration of a summarizer run.
#[derive(Debug, Clone)]
pub struct SummarizerArgs {
    /// OAI endpoint url
    pub endpoint: String,
    /// OAI metadata prefix
    pub metadata_prefix: String,
    /// OAI identifier
    pub identifier: Option<String>,
    /// Base directory for downloads
    pub dir: String,
    /// Max number of concurrent summarizer requests
    pub concurrency: u8,
    /// Per-record timeout for summarizer api calls
    pub timeout_seconds: u64,
}

/// Run options of a summarizer sweep.
#[derive(Debug, Clone)]
pub struct SummarizerRunOptions {
    pub concurrency: u8,
    pub timeout_seconds: u64,
}

/// A summarizing backend: takes a record's extracted content and files a
/// summary for it, or reports why it could not.
pub trait Summarizer {
    fn summarize(&self, content: String) -> Result<(), String>;
}

} // verus!
