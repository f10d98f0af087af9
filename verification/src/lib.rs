//! Snapshot the executable binaries of running processes into one archive.
//!
//! The library holds the logic of such a snapshot: deduplicating the
//! executable paths that the process table yields, normalizing each path into
//! an archive entry name, recording a content digest per binary in a ledger,
//! collecting the run's log lines, and assembling the archive with the log
//! and the ledger as its two trailing entries. Enumerating processes, reading
//! files and writing the finished archive to disk are left to the caller.

pub mod archive;
pub mod binset;
pub mod digest;
pub mod ledger;
pub mod logbuf;
pub mod numfmt;
pub mod paths;
pub mod run;
mod strutil;
