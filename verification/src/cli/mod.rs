//! The command line: the commands and their arguments, and the rules that
//! the commands follow.
pub mod commands;

use vstd::prelude::*;

verus! {

/// The arguments of the package manager: a command and the options that
/// every command takes.
pub struct Cli {
    pub command: Commands,
    /// The registry to use instead of the configured one.
    pub registry: Option<String>,
    /// The cache directory to use instead of the default one, as the
    /// bytes of its path.
    pub cache_dir: Option<Vec<u8>>,
    pub save_dev: bool,
    pub save_optional: bool,
}

/// The commands of the package manager.
pub enum Commands {
    Install { packages: Vec<String>, save: bool },
    Uninstall { packages: Vec<String>, save: bool },
    Update { packages: Option<Vec<String>>, all: bool },
    Search { query: String, limit: usize },
    Info { package: String },
    List { depth: Option<usize>, global: bool },
    Init { yes: bool },
    Run { script: String, args: Vec<String> },
    Cache { subcommand: CacheCommand },
    Config { subcommand: ConfigCommand },
    Clean,
    Audit,
    Version,
    New { name: String },
    Exec { command: String, args: Vec<String> },
}

/// The subcommands of `cache`.
pub enum CacheCommand {
    Clean,
    Verify,
    List,
}

/// The subcommands of `config`; `SetValue` is `config set`.
pub enum ConfigCommand {
    Get { key: String },
    SetValue { key: String, value: String },
    List,
    Delete { key: String },
}

} // verus!
