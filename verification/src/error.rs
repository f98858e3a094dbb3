//! Error types of the library.  Payloads are plain strings so that callers can
//! render them however they like.

use vstd::prelude::*;

verus! {

/// Errors of the launch, locator and preference-document operations.
#[derive(Debug, Clone)]
pub enum AppError {
    /// No command was given to run.
    NoCommand,
    /// The process-replacement call itself failed.
    ExecutionFailed(String),
    /// A configured pre-command could not be split into shell words.
    PreCommandParse(String),
    /// A configured gamescope argument string could not be split into shell words.
    GamescopeArgsParse(String),
    /// No Steam installation was found; the payload lists the checked paths.
    SteamNotFound(Vec<String>),
    /// A compatibility-tool operation failed.
    CompatTool(String),
    /// An unknown verb was passed by Steam.
    UnknownVerb(String),
    /// The requested Proton version was not found.
    ProtonNotFound(String),
    /// A hook command failed or could not be parsed.
    HookFailed(String),
    /// No suitable Steam user was found.
    SteamUserNotFound(String),
    /// An input/output failure, by its message.
    Io(String),
    /// A configuration source could not be read or parsed.
    Config(String),
}

/// Errors of the simple configuration loader.
#[derive(Debug, Clone)]
pub enum ConfigLoadError {
    /// Neither an explicit path nor a discoverable config location was given.
    CouldNotFind,
    /// The config file could not be opened; the payload is its path.
    CouldNotOpen(String),
    /// The config file could not be read; the payload is its path.
    CouldNotRead(String),
    /// The config file could not be parsed; the payload is the parser message.
    FailedToParse(String),
}

/// Errors of the plain command runner.
#[derive(Debug, Clone)]
pub enum SteamCommandRunnerError {
    /// No command token was present in the arguments.
    CouldNotGetCommand,
    /// The configured pre-command could not be split into shell words.
    CouldNotSplitPreCommand,
    /// An input/output failure, by its message.
    IOError(String),
    /// The configuration could not be loaded.
    CouldNotLoadConfig(ConfigLoadError),
}

} // verus!
