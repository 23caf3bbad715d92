//! The command-line surface, as plain values.

use vstd::prelude::*;

verus! {

/// The default retention cap, in approximate bytes (1 GiB).
pub const DEFAULT_MAX_MEMORY: usize = 1073741824;

/// The default time, in seconds, that a blocked ingest send waits before a retryable reject.
pub const DEFAULT_INGEST_TIMEOUT_SECS: u64 = 10;

/// The parsed command line.
#[derive(Debug, Clone, Copy, PartialEq, Eq, Structural)]
pub struct Cli {
    pub command: Option<Command>,
    /// Retention cap, in approximate bytes.
    pub max_memory: usize,
    /// Seconds a blocked ingest send waits before returning a retryable reject.
    pub ingest_timeout: u64,
    /// Dump all resident state of a running instance as JSON and exit.
    pub dump: bool,
    /// Start pre-seeded with the curated demo trace set.
    pub demo: bool,
}

/// A subcommand.
#[derive(Debug, Clone, Copy, PartialEq, Eq, Structural)]
pub enum Command {
    /// List the resident traces of a running instance.
    List,
}

impl Default for Cli {
    fn default() -> (r: Self)
        ensures
            r.command is None,
            r.max_memory == DEFAULT_MAX_MEMORY,
            r.ingest_timeout == DEFAULT_INGEST_TIMEOUT_SECS,
            !r.dump,
            !r.demo,
    {
        Cli {
            command: None,
            max_memory: DEFAULT_MAX_MEMORY,
            ingest_timeout: DEFAULT_INGEST_TIMEOUT_SECS,
            dump: false,
            demo: false,
        }
    }
}

} // verus!
