//! Command-line arguments. Paths are held as their bytes.

use vstd::prelude::*;

use crate::config;
use crate::config::LogLevel;

verus! {

/// The parsed command line.
#[derive(Debug)]
pub struct Args {
    pub config_file: Option<Vec<u8>>,
    pub log_level: Option<LogLevel>,
    pub overrides: Overrides,
    pub dry_run: bool,
    pub command: Option<Command>,
}

/// What to run.
#[derive(Debug, PartialEq, Eq)]
pub enum Command {
    /// Run a one-shot sync and exit; `account` names the one account to sync,
    /// all accounts when absent.
    Sync { account: Option<String> },
    /// Start the long-running daemon.
    Daemon,
}

impl Default for Command {
    fn default() -> (r: Self)
        ensures
            r is Daemon,
    {
        Command::Daemon
    }
}

/// Command-line settings that override the config file.
#[derive(Debug)]
pub struct Overrides {
    pub db_dir: Option<Vec<u8>>,
}

impl From<Overrides> for config::Overrides {
    fn from(args: Overrides) -> (r: config::Overrides)
        ensures
            r.db_dir == args.db_dir,
    {
        config::Overrides { db_dir: args.db_dir }
    }
}

impl vstd::std_specs::convert::FromSpecImpl<Overrides> for config::Overrides {
    open spec fn obeys_from_spec() -> bool {
        true
    }

    open spec fn from_spec(args: Overrides) -> config::Overrides {
        config::Overrides { db_dir: args.db_dir }
    }
}

} // verus!
