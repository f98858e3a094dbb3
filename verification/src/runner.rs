//! The plain command runner: a loaded configuration and the pre-command
//! prefixing it applies to an argument vector.

use vstd::prelude::*;

use crate::config::Config;
use crate::error::SteamCommandRunnerError;
use crate::shell::{shell_words, split_shell_words};

verus! {

/// The plain runner, holding its configuration once loaded.
#[derive(Debug)]
pub struct SteamCommandRunner {
    pub config: Option<Config>,
}

impl Default for SteamCommandRunner {
    fn default() -> (r: Self)
        ensures
            r.config is None,
    {
        SteamCommandRunner { config: None }
    }
}

impl SteamCommandRunner {
    /// Wrap a loaded configuration.
    pub fn from_config(config: Config) -> (r: Result<
        SteamCommandRunner,
        SteamCommandRunnerError,
    >)
        ensures
            r matches Ok(s) && s.config == Some(config),
    {
        Ok(SteamCommandRunner { config: Some(config) })
    }

    /// Put the configured pre-command's shell words in front of the
    /// arguments.  Without a configuration or a pre-command the arguments
    /// stay as they are; an unsplittable pre-command fails and changes
    /// nothing.
    pub fn add_pre_command(&self, args: &mut Vec<String>) -> (r: Result<
        (),
        SteamCommandRunnerError,
    >)
        ensures
            match r {
                Ok(()) => match self.config {
                    None => final(args)@ == old(args)@,
                    Some(cfg) => match cfg.pre_command {
                        None => final(args)@ == old(args)@,
                        Some(pc) => shell_words(pc@) is Some && final(args).deep_view()
                            == shell_words(pc@)->0 + old(args).deep_view(),
                    },
                },
                Err(e) => e is CouldNotSplitPreCommand && final(args)@ == old(args)@ && (
                match self.config {
                    None => false,
                    Some(cfg) => match cfg.pre_command {
                        None => false,
                        Some(pc) => shell_words(pc@) is None,
                    },
                }),
            },
    {
        let cfg = match &self.config {
            Some(c) => c,
            None => {
                return Ok(());
            },
        };
        let pc = match &cfg.pre_command {
            Some(p) => p,
            None => {
                return Ok(());
            },
        };
        match split_shell_words(pc.as_str()) {
            None => Err(SteamCommandRunnerError::CouldNotSplitPreCommand),
            Some(ws) => {
                let mut cmd = ws;
                let ghost wsv = cmd.deep_view();
                let ghost oldargs = args.deep_view();
                cmd.append(args);
                *args = cmd;
                proof {
                    assert(args.deep_view() =~= wsv + oldargs);
                }
                Ok(())
            },
        }
    }
}

} // verus!
