//! Configuration model: a global source, a per-title source, and the merged
//! launch policy resolved from the two plus the session context.

use vstd::prelude::*;

use crate::env_map::EnvMap;
use crate::text::{contains_sub, replace_str, spec_contains, spec_replace, spec_trim, trim};

verus! {

/// How a command is executed.
#[derive(Debug, Clone, Copy, PartialEq, Eq, Structural)]
pub enum ExecutionMode {
    /// Run as a native Linux executable.
    Native,
    /// Run through the Proton compatibility layer.
    Proton,
    /// Decide from the command's file extension.
    Auto,
}

impl Default for ExecutionMode {
    fn default() -> (r: Self)
        ensures
            r == ExecutionMode::Auto,
    {
        ExecutionMode::Auto
    }
}

/// One hook: a command, whether to await it, and an optional working directory.
#[derive(Debug, Clone)]
pub struct HookConfig {
    pub command: String,
    pub wait: bool,
    pub working_dir: Option<String>,
}

/// The two hook slots.
#[derive(Debug, Clone)]
pub struct HooksConfig {
    pub pre_launch: Option<HookConfig>,
    pub post_exit: Option<HookConfig>,
}

impl Default for HooksConfig {
    fn default() -> (r: Self)
        ensures
            r.pre_launch is None,
            r.post_exit is None,
    {
        HooksConfig { pre_launch: None, post_exit: None }
    }
}

/// The default for a hook's wait flag.
pub fn default_wait() -> (r: bool)
    ensures
        r == true,
{
    true
}

/// Gamescope wrapper settings.
#[derive(Debug, Clone)]
pub struct GamescopeConfig {
    /// Whether the gamescope wrapper is used at all.
    pub enabled: bool,
    /// Arguments handed to gamescope, as one shell-quoted string.
    pub args: Option<String>,
    /// Skip the general pre-command while inside a gamescope session.
    pub skip_pre_command: bool,
    /// A pre-command used only inside a gamescope session.
    pub pre_command: Option<String>,
}

impl Default for GamescopeConfig {
    fn default() -> (r: Self)
        ensures
            r.enabled == true,
            r.args is None,
            r.skip_pre_command == true,
            r.pre_command is None,
    {
        GamescopeConfig { enabled: true, args: None, skip_pre_command: true, pre_command: None }
    }
}

/// The default for the skip-pre-command flag.
pub fn default_skip_pre_command() -> (r: bool)
    ensures
        r == true,
{
    true
}

/// The global configuration source.
#[derive(Debug, Clone)]
pub struct GlobalConfig {
    pub pre_command: Option<String>,
    pub default_proton: Option<String>,
    pub default_mode: ExecutionMode,
    pub env: EnvMap,
    pub hooks: HooksConfig,
    pub gamescope: GamescopeConfig,
}

impl Default for GlobalConfig {
    fn default() -> (r: Self)
        ensures
            r.pre_command is None,
            r.default_proton is None,
            r.default_mode == ExecutionMode::Auto,
            r.env.wf(),
            r.env.as_map() == Map::<Seq<char>, Seq<char>>::empty(),
            r.hooks.pre_launch is None,
            r.hooks.post_exit is None,
            r.gamescope.enabled == true,
            r.gamescope.args is None,
            r.gamescope.skip_pre_command == true,
            r.gamescope.pre_command is None,
    {
        GlobalConfig {
            pre_command: None,
            default_proton: None,
            default_mode: ExecutionMode::Auto,
            env: EnvMap::new(),
            hooks: HooksConfig { pre_launch: None, post_exit: None },
            gamescope: GamescopeConfig {
                enabled: true,
                args: None,
                skip_pre_command: true,
                pre_command: None,
            },
        }
    }
}

/// The per-title configuration source; every field overrides the global one.
#[derive(Debug, Clone)]
pub struct GameConfig {
    pub name: Option<String>,
    pub mode: Option<ExecutionMode>,
    pub proton: Option<String>,
    pub pre_command: Option<String>,
    pub env: EnvMap,
    pub launch_args: Vec<String>,
    pub hooks: HooksConfig,
    pub gamescope_enabled: Option<bool>,
    pub gamescope_args: Option<String>,
}

impl Default for GameConfig {
    fn default() -> (r: Self)
        ensures
            r.name is None,
            r.mode is None,
            r.proton is None,
            r.pre_command is None,
            r.env.wf(),
            r.env.as_map() == Map::<Seq<char>, Seq<char>>::empty(),
            r.launch_args@.len() == 0,
            r.hooks.pre_launch is None,
            r.hooks.post_exit is None,
            r.gamescope_enabled is None,
            r.gamescope_args is None,
    {
        GameConfig {
            name: None,
            mode: None,
            proton: None,
            pre_command: None,
            env: EnvMap::new(),
            launch_args: Vec::new(),
            hooks: HooksConfig { pre_launch: None, post_exit: None },
            gamescope_enabled: None,
            gamescope_args: None,
        }
    }
}

/// The pre-command that results from layering a per-title value over the
/// global one.  A per-title value containing the token `inherit` has every
/// occurrence of the token replaced by the global value and is then trimmed;
/// any other per-title value replaces the global one wholesale.
pub open spec fn spec_merge_pre_command(
    global: Option<Seq<char>>,
    game: Option<Seq<char>>,
) -> Option<Seq<char>> {
    match game {
        Some(cmd) => if spec_contains(cmd, "inherit"@) {
            let g = match global {
                Some(s) => s,
                None => Seq::empty(),
            };
            Some(spec_trim(spec_replace(cmd, "inherit"@, g)))
        } else {
            Some(cmd)
        },
        None => global,
    }
}

/// The one effective launch policy for a title.
#[derive(Debug, Clone)]
pub struct MergedConfig {
    /// Steam App ID, if known.
    pub app_id: Option<u32>,
    /// Display name, if configured.
    pub name: Option<String>,
    /// Execution mode.
    pub mode: ExecutionMode,
    /// Requested Proton version.
    pub proton: Option<String>,
    /// Pre-command to place before the command.
    pub pre_command: Option<String>,
    /// Flattened environment, per-title entries winning.
    pub env: EnvMap,
    /// Extra launch arguments, appended last.
    pub launch_args: Vec<String>,
    /// Pre-launch hook.
    pub pre_launch_hook: Option<HookConfig>,
    /// Post-exit hook.
    pub post_exit_hook: Option<HookConfig>,
    /// Whether the session is already a gamescope session.
    pub is_gamescope_session: bool,
    /// Pre-command used only inside a gamescope session.
    pub gamescope_pre_command: Option<String>,
    /// Skip the general pre-command inside a gamescope session.
    pub skip_pre_command_in_gamescope: bool,
    /// Whether the gamescope wrapper is used.
    pub gamescope_enabled: bool,
    /// Arguments for the gamescope wrapper.
    pub gamescope_args: Option<String>,
}

impl MergedConfig {
    /// Merge the global and per-title sources with the session context.
    /// Per-title scalars override global ones; environments are united with
    /// the per-title side winning; a per-title hook replaces the global hook
    /// of its slot wholesale.
    pub fn merge(
        global: GlobalConfig,
        game: Option<GameConfig>,
        is_gamescope: bool,
        app_id: Option<u32>,
    ) -> (r: MergedConfig)
        requires
            global.env.wf(),
        ensures
            r.app_id == app_id,
            r.name == (match game {
                Some(g) => g.name,
                None => None::<String>,
            }),
            r.mode == (match game {
                Some(g) => match g.mode {
                    Some(m) => m,
                    None => global.default_mode,
                },
                None => global.default_mode,
            }),
            r.proton == (match game {
                Some(g) => if g.proton is Some {
                    g.proton
                } else {
                    global.default_proton
                },
                None => global.default_proton,
            }),
            r.pre_command.deep_view() == spec_merge_pre_command(
                global.pre_command.deep_view(),
                match game {
                    Some(g) => g.pre_command.deep_view(),
                    None => None,
                },
            ),
            r.env.wf(),
            r.env.as_map() == global.env.as_map().union_prefer_right(
                match game {
                    Some(g) => g.env.as_map(),
                    None => Map::<Seq<char>, Seq<char>>::empty(),
                },
            ),
            r.launch_args@ == (match game {
                Some(g) => g.launch_args@,
                None => Seq::<String>::empty(),
            }),
            r.pre_launch_hook == (match game {
                Some(g) => if g.hooks.pre_launch is Some {
                    g.hooks.pre_launch
                } else {
                    global.hooks.pre_launch
                },
                None => global.hooks.pre_launch,
            }),
            r.post_exit_hook == (match game {
                Some(g) => if g.hooks.post_exit is Some {
                    g.hooks.post_exit
                } else {
                    global.hooks.post_exit
                },
                None => global.hooks.post_exit,
            }),
            r.is_gamescope_session == is_gamescope,
            r.gamescope_pre_command == global.gamescope.pre_command,
            r.skip_pre_command_in_gamescope == global.gamescope.skip_pre_command,
            r.gamescope_enabled == (match game {
                Some(g) => match g.gamescope_enabled {
                    Some(e) => e,
                    None => global.gamescope.enabled,
                },
                None => global.gamescope.enabled,
            }),
            r.gamescope_args == (match game {
                Some(g) => if g.gamescope_args is Some {
                    g.gamescope_args
                } else {
                    global.gamescope.args
                },
                None => global.gamescope.args,
            }),
    {
        let ghost game0 = game;
        let game = match game {
            Some(g) => g,
            None => GameConfig {
                name: None,
                mode: None,
                proton: None,
                pre_command: None,
                env: EnvMap::new(),
                launch_args: Vec::new(),
                hooks: HooksConfig { pre_launch: None, post_exit: None },
                gamescope_enabled: None,
                gamescope_args: None,
            },
        };
        let mut env = EnvMap::new();
        env.extend_with(&global.env);
        env.extend_with(&game.env);
        proof {
            assert(Map::<Seq<char>, Seq<char>>::empty().union_prefer_right(global.env.as_map())
                =~= global.env.as_map());
        }

        let pre_command: Option<String> = match &game.pre_command {
            Some(cmd) => {
                if contains_sub(cmd.as_str(), "inherit") {
                    let g: &str = match &global.pre_command {
                        Some(s) => s.as_str(),
                        None => "",
                    };
                    proof {
                        reveal_strlit("inherit");
                        reveal_strlit("");
                        if global.pre_command is None {
                            assert(""@ =~= Seq::<char>::empty());
                        }
                    }
                    let replaced = replace_str(cmd.as_str(), "inherit", g);
                    let trimmed = trim(replaced.as_str());
                    Some(trimmed.to_owned())
                } else {
                    Some(cmd.clone())
                }
            },
            None => match &global.pre_command {
                Some(s) => Some(s.clone()),
                None => None,
            },
        };

        let mode = match game.mode {
            Some(m) => m,
            None => global.default_mode,
        };
        let proton = match game.proton {
            Some(p) => Some(p),
            None => global.default_proton,
        };
        let pre_launch_hook = match game.hooks.pre_launch {
            Some(h) => Some(h),
            None => global.hooks.pre_launch,
        };
        let post_exit_hook = match game.hooks.post_exit {
            Some(h) => Some(h),
            None => global.hooks.post_exit,
        };
        let gamescope_enabled = match game.gamescope_enabled {
            Some(e) => e,
            None => global.gamescope.enabled,
        };
        let gamescope_args = match game.gamescope_args {
            Some(a) => Some(a),
            None => global.gamescope.args,
        };

        MergedConfig {
            app_id,
            name: game.name,
            mode,
            proton,
            pre_command,
            env,
            launch_args: game.launch_args,
            pre_launch_hook,
            post_exit_hook,
            is_gamescope_session: is_gamescope,
            gamescope_pre_command: global.gamescope.pre_command,
            skip_pre_command_in_gamescope: global.gamescope.skip_pre_command,
            gamescope_enabled,
            gamescope_args,
        }
    }

    /// The pre-command that applies in the current session: inside a
    /// gamescope session with the skip flag set, the gamescope-only
    /// pre-command; otherwise the general one.
    pub open spec fn spec_effective_pre_command(self) -> Option<Seq<char>> {
        if self.is_gamescope_session && self.skip_pre_command_in_gamescope {
            self.gamescope_pre_command.deep_view()
        } else {
            self.pre_command.deep_view()
        }
    }

    /// The effective pre-command, selected by the session context.
    pub fn effective_pre_command(&self) -> (r: Option<&String>)
        ensures
            match r {
                Some(s) => self.spec_effective_pre_command() == Some(s@),
                None => self.spec_effective_pre_command() is None,
            },
    {
        if self.is_gamescope_session {
            if self.skip_pre_command_in_gamescope {
                match &self.gamescope_pre_command {
                    Some(s) => Some(s),
                    None => None,
                }
            } else {
                match &self.pre_command {
                    Some(s) => Some(s),
                    None => None,
                }
            }
        } else {
            match &self.pre_command {
                Some(s) => Some(s),
                None => None,
            }
        }
    }
}

/// The plain command runner's configuration: only a pre-command.
#[derive(Debug, Clone)]
pub struct Config {
    pub pre_command: Option<String>,
}

impl Default for Config {
    fn default() -> (r: Self)
        ensures
            r.pre_command is None,
    {
        Config { pre_command: None }
    }
}

} // verus!
