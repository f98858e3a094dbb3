//! Hook preparation: splitting a hook's command into the words the caller
//! spawns.  Spawning and waiting are the caller's side.

use vstd::prelude::*;

use crate::config::HookConfig;
use crate::error::AppError;
use crate::shell::{shell_words, split_shell_words};

verus! {

/// Split a hook's command into the words to spawn.  Fails exactly when the
/// command cannot be split or splits to nothing.
pub fn prepare_hook_args(hook: &HookConfig) -> (r: Result<Vec<String>, AppError>)
    ensures
        match r {
            Ok(v) => shell_words(hook.command@) == Some(v.deep_view()) && v@.len() > 0,
            Err(e) => (shell_words(hook.command@) is None || shell_words(hook.command@)
                == Some(Seq::<Seq<char>>::empty())) && e is HookFailed,
        },
{
    match split_shell_words(hook.command.as_str()) {
        None => Err(AppError::HookFailed(hook.command.clone())),
        Some(args) => {
            if args.len() == 0 {
                proof {
                    assert(args.deep_view() =~= Seq::<Seq<char>>::empty());
                }
                Err(AppError::HookFailed(hook.command.clone()))
            } else {
                Ok(args)
            }
        },
    }
}

} // verus!
