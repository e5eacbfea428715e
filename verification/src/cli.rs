//! The command line: run rounds (once, or without switching), or write the
//! managed groups into Clash Verge's profile enhancement.

use vstd::prelude::*;

verus! {

/// `std::path::PathBuf`, carried as it is.
#[verifier::external_type_specification]
#[verifier::external_body]
pub struct ExPathBuf(std::path::PathBuf);

/// The parsed command line.
#[derive(Debug)]
pub struct Cli {
    pub command: Option<Command>,
    /// Run one round and exit.
    pub once: bool,
    /// Probe and score without switching.
    pub dry_run: bool,
    /// The configuration file.
    pub config: std::path::PathBuf,
}

#[derive(Debug)]
pub enum Command {
    /// Write the managed groups into Clash Verge's groups enhancement files.
    SyncRwGroups(SyncRwGroupsArgs),
}

#[derive(Debug)]
pub struct SyncRwGroupsArgs {
    /// Clash Verge's data directory.
    pub verge_dir: Option<std::path::PathBuf>,
    /// Every remote profile's groups file, not just the current one's.
    pub all: bool,
    /// Only list the files that would be written.
    pub dry_run: bool,
}

} // verus!
