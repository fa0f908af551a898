//! Core engine of a multi-mode network enumeration tool.
//!
//! Given a wordlist and a target, the engine expands the wordlist into an
//! ordered sequence of probe candidates (paths, subdomains, virtual hosts, or
//! fuzzing payloads), models the bounded concurrent dispatch of those probes,
//! filters and deduplicates the outcomes, and tracks run statistics and
//! cancellation.  All probe text is handled as raw bytes; the surrounding
//! binary performs the actual network I/O and feeds outcomes back in.

pub mod bytes;
pub mod candidates;
pub mod csrf;
pub mod dispatch;
pub mod executor;
pub mod filter;
pub mod fuzz;
pub mod laws;
pub mod session;
pub mod validate;
pub mod wordlist;
