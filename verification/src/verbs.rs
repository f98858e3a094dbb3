//! Verbs passed by Steam to a compatibility tool.

use vstd::prelude::*;

use crate::error::AppError;
use crate::text::{spec_lower, str_eq, to_lowercase};

verus! {

/// A verb passed by Steam to a compatibility tool.
#[derive(Debug, Clone, Copy, PartialEq, Eq, Structural)]
pub enum Verb {
    /// Run the game and wait for it to exit.
    WaitForExitAndRun,
    /// Run the game without waiting.
    Run,
    /// Report the compatibility data path.
    GetCompatPath,
    /// Report the native path.
    GetNativePath,
}

/// The verb named by a string, compared case-insensitively.
pub open spec fn spec_verb_of(s: Seq<char>) -> Option<Verb> {
    let l = spec_lower(s);
    if l == "waitforexitandrun"@ {
        Some(Verb::WaitForExitAndRun)
    } else if l == "run"@ {
        Some(Verb::Run)
    } else if l == "getcompatpath"@ {
        Some(Verb::GetCompatPath)
    } else if l == "getnativepath"@ {
        Some(Verb::GetNativePath)
    } else {
        None
    }
}

impl Verb {
    /// Parse a verb; unknown strings come back in the error.
    pub fn from_str(s: &str) -> (r: Result<Verb, AppError>)
        ensures
            match r {
                Ok(v) => spec_verb_of(s@) == Some(v),
                Err(e) => spec_verb_of(s@) is None && (e matches AppError::UnknownVerb(u)
                    && u@ == s@),
            },
    {
        let lower = to_lowercase(s);
        if str_eq(lower.as_str(), "waitforexitandrun") {
            Ok(Verb::WaitForExitAndRun)
        } else if str_eq(lower.as_str(), "run") {
            Ok(Verb::Run)
        } else if str_eq(lower.as_str(), "getcompatpath") {
            Ok(Verb::GetCompatPath)
        } else if str_eq(lower.as_str(), "getnativepath") {
            Ok(Verb::GetNativePath)
        } else {
            Err(AppError::UnknownVerb(s.to_owned()))
        }
    }

    /// Whether the verb runs the game.
    pub fn should_execute(&self) -> (r: bool)
        ensures
            r == (self is WaitForExitAndRun || self is Run),
    {
        match self {
            Verb::WaitForExitAndRun => true,
            Verb::Run => true,
            _ => false,
        }
    }

    /// Whether the verb waits for the game to exit.
    pub fn should_wait(&self) -> (r: bool)
        ensures
            r == (self is WaitForExitAndRun),
    {
        match self {
            Verb::WaitForExitAndRun => true,
            _ => false,
        }
    }
}

/// The context a compatibility-tool invocation runs in: the verb, the game's
/// path and arguments, and what the caller read from the session.
#[derive(Debug, Clone)]
pub struct CompatToolContext {
    pub verb: Verb,
    pub game_path: String,
    pub game_args: Vec<String>,
    pub steam_app_id: Option<u32>,
    pub compat_data_path: Option<String>,
    pub client_install_path: Option<String>,
    pub steam_game_id: Option<String>,
}

impl CompatToolContext {
    /// Build the context from the verb string, the remaining arguments (the
    /// first is the game's path), and the session values the caller read.
    pub fn from_parts(
        verb: &str,
        args: Vec<String>,
        steam_app_id: Option<u32>,
        compat_data_path: Option<String>,
        client_install_path: Option<String>,
        steam_game_id: Option<String>,
    ) -> (r: Result<CompatToolContext, crate::error::AppError>)
        ensures
            match r {
                Ok(c) => {
                    &&& spec_verb_of(verb@) == Some(c.verb)
                    &&& c.game_path@ == (if args@.len() > 0 {
                        args.deep_view()[0]
                    } else {
                        Seq::<char>::empty()
                    })
                    &&& c.game_args.deep_view() == (if args@.len() > 0 {
                        args.deep_view().skip(1)
                    } else {
                        Seq::<Seq<char>>::empty()
                    })
                    &&& c.steam_app_id == steam_app_id
                    &&& c.compat_data_path == compat_data_path
                    &&& c.client_install_path == client_install_path
                    &&& c.steam_game_id == steam_game_id
                },
                Err(e) => spec_verb_of(verb@) is None && (e matches AppError::UnknownVerb(u)
                    && u@ == verb@),
            },
    {
        let verb = match Verb::from_str(verb) {
            Ok(v) => v,
            Err(e) => {
                return Err(e);
            },
        };
        let mut args = args;
        let ghost argsv = args.deep_view();
        let (game_path, game_args) = if args.len() == 0 {
            let empty: Vec<String> = Vec::new();
            proof {
                assert(empty.deep_view() =~= Seq::<Seq<char>>::empty());
            }
            (String::new(), empty)
        } else {
            let first = args.remove(0);
            proof {
                assert(args.deep_view() =~= argsv.skip(1));
            }
            (first, args)
        };
        Ok(
            CompatToolContext {
                verb,
                game_path,
                game_args,
                steam_app_id,
                compat_data_path,
                client_install_path,
                steam_game_id,
            },
        )
    }
}

} // verus!
