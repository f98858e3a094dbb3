//! The command-line surface as plain data.  Argument parsing itself lives
//! with the binary; these types carry the parsed invocation.

use vstd::prelude::*;

verus! {

/// A parsed invocation.
#[derive(Debug, Clone)]
pub struct Cli {
    pub command: Option<Commands>,
    /// Verbose logging requested.
    pub verbose: bool,
    /// Configuration file override.
    pub config: Option<String>,
}

/// The top-level commands.
#[derive(Debug, Clone)]
pub enum Commands {
    /// Run a command with the configured wrappers.
    Run { app_id: Option<u32>, command: Vec<String> },
    /// Install the gamescope shim symlink.
    Install { path: Option<String> },
    /// Remove the gamescope shim symlink.
    Uninstall { path: Option<String> },
    /// Search the store for a title's App ID.
    Search { query: String, limit: usize },
    /// Configuration management.
    Config { action: ConfigAction },
    /// Proton version management.
    Proton { action: ProtonAction },
    /// Gamescope argument management.
    Gamescope { action: GamescopeAction },
    /// Launch-options management.
    LaunchOptions { action: LaunchOptionsAction },
}

/// Configuration subcommands.
#[derive(Debug, Clone)]
pub enum ConfigAction {
    Show { app_id: Option<u32> },
    Init,
    Edit { app_id: Option<u32>, name: Option<String> },
    Path { app_id: Option<u32> },
}

/// Proton subcommands.
#[derive(Debug, Clone)]
pub enum ProtonAction {
    List { paths: bool },
}

/// Gamescope subcommands.
#[derive(Debug, Clone)]
pub enum GamescopeAction {
    Args { app_id: Option<u32> },
    Enabled { app_id: Option<u32> },
}

/// Launch-options subcommands.
#[derive(Debug, Clone)]
pub enum LaunchOptionsAction {
    SetAll { backup: bool, dry_run: bool, user_id: Option<u64> },
    SetOne { app_id: u32, options: Option<String>, user_id: Option<u64> },
    ClearAll { backup: bool, only_ours: bool, user_id: Option<u64> },
    Show { app_id: u32, user_id: Option<u64> },
    List { user_id: Option<u64> },
}

} // verus!
