//! Launch composition: building the exact argument vector and environment
//! for one of the wrapping topologies (gamescope, Proton, pre-command).

use vstd::prelude::*;

use crate::config::{ExecutionMode, MergedConfig};
use crate::env_map::EnvMap;
use crate::error::AppError;
use crate::shell::{shell_words, split_shell_words};
use crate::text::{
    clone_string_vec, contains_sub, ends_with, push_char, spec_contains, spec_ends_with,
    spec_lower, to_lowercase,
};

verus! {

/// The views of a vector of strings.
pub open spec fn seq_views(s: Seq<String>) -> Seq<Seq<char>> {
    Seq::new(s.len(), |i: int| s[i]@)
}

/// What the composer reads from the process environment and the installation
/// tree; gathered by the caller so that composition stays pure.
#[derive(Debug, Clone)]
pub struct SessionEnv {
    /// Discovered overlay shared-library paths, already joined with `:`.
    pub overlay_paths: Option<String>,
    /// The current dynamic-library preload list.
    pub ld_preload: Option<String>,
    /// The compatibility data path handed down by Steam.
    pub compat_data_path: Option<String>,
    /// The Steam client installation path handed down by Steam.
    pub client_install_path: Option<String>,
}

/// The mode implied by a command's file extension: a foreign-OS executable
/// suffix selects Proton, anything else runs native.
pub open spec fn spec_detect_execution_mode(path: Seq<char>) -> ExecutionMode {
    let l = spec_lower(path);
    if spec_ends_with(l, ".exe"@) || spec_ends_with(l, ".msi"@) || spec_ends_with(l, ".bat"@) {
        ExecutionMode::Proton
    } else {
        ExecutionMode::Native
    }
}

/// Detect the execution mode from a command path.
pub fn detect_execution_mode(path: &str) -> (r: ExecutionMode)
    ensures
        r == spec_detect_execution_mode(path@),
{
    let lower = to_lowercase(path);
    if ends_with(lower.as_str(), ".exe") || ends_with(lower.as_str(), ".msi") || ends_with(
        lower.as_str(),
        ".bat",
    ) {
        ExecutionMode::Proton
    } else {
        ExecutionMode::Native
    }
}

/// Resolve `Auto` against the first command token.
pub fn resolve_mode(mode: ExecutionMode, first_token: &str) -> (r: ExecutionMode)
    ensures
        mode is Auto ==> r == spec_detect_execution_mode(first_token@),
        !(mode is Auto) ==> r == mode,
{
    match mode {
        ExecutionMode::Auto => detect_execution_mode(first_token),
        m => m,
    }
}

/// The preload list with the overlay libraries added: absent when no overlay
/// was discovered; an existing list already naming the overlay library is
/// kept; otherwise the overlay paths are put in front.
pub open spec fn spec_ld_preload(
    overlay: Option<Seq<char>>,
    existing: Option<Seq<char>>,
) -> Option<Seq<char>> {
    match overlay {
        None => None,
        Some(o) => match existing {
            Some(e) => if spec_contains(e, "gameoverlayrenderer.so"@) {
                Some(e)
            } else {
                Some(o + seq![':'] + e)
            },
            None => Some(o),
        },
    }
}

/// Build the preload list with the overlay libraries added.
pub fn build_ld_preload_with_overlay(
    overlay: Option<&String>,
    existing: Option<&String>,
) -> (r: Option<String>)
    ensures
        r.deep_view() == spec_ld_preload(
            match overlay {
                Some(o) => Some(o@),
                None => None,
            },
            match existing {
                Some(e) => Some(e@),
                None => None,
            },
        ),
{
    match overlay {
        None => None,
        Some(o) => match existing {
            Some(e) => {
                if contains_sub(e.as_str(), "gameoverlayrenderer.so") {
                    Some(e.clone())
                } else {
                    let mut s = o.clone();
                    push_char(&mut s, ':');
                    s.append(e.as_str());
                    proof {
                        assert(s@ =~= o@ + seq![':'] + e@);
                    }
                    Some(s)
                }
            },
            None => Some(o.clone()),
        },
    }
}

impl SessionEnv {
    /// The preload value this session resolves to.
    pub open spec fn spec_resolved_ld_preload(self) -> Option<Seq<char>> {
        spec_ld_preload(self.overlay_paths.deep_view(), self.ld_preload.deep_view())
    }

    /// Resolve the preload value for this session.
    pub fn resolved_ld_preload(&self) -> (r: Option<String>)
        ensures
            r.deep_view() == self.spec_resolved_ld_preload(),
    {
        build_ld_preload_with_overlay(self.overlay_paths.as_ref(), self.ld_preload.as_ref())
    }
}

/// Whether composition wraps the command in gamescope: enabled, not already
/// inside a session, and an argument string is configured.
pub open spec fn spec_uses_gamescope(c: MergedConfig) -> bool {
    c.gamescope_enabled && !c.is_gamescope_session && c.gamescope_args is Some
}

/// The gamescope wrapper segment: the binary, the configured arguments, the
/// separator, then an inline `env` segment carrying the overlay enable flags
/// and, when resolvable, the preload list, so that they reach the inner
/// wrapped command rather than the capability-restricted wrapper itself.
pub open spec fn spec_gamescope_prefix(args: Seq<char>, ld: Option<Seq<char>>) -> Option<
    Seq<Seq<char>>,
> {
    match shell_words(args) {
        None => None,
        Some(ws) => Some(
            seq!["gamescope"@] + ws + seq![
                "--"@,
                "env"@,
                "ENABLE_VK_LAYER_VALVE_steam_overlay_1=1"@,
                "ENABLE_GAMESCOPE_WSI=1"@,
            ] + (match ld {
                Some(l) => seq!["LD_PRELOAD="@ + l],
                None => Seq::<Seq<char>>::empty(),
            }),
        ),
    }
}

/// The shell words of the effective pre-command: nothing when none is set.
pub open spec fn spec_pre_words(c: MergedConfig) -> Option<Seq<Seq<char>>> {
    match c.spec_effective_pre_command() {
        None => Some(Seq::<Seq<char>>::empty()),
        Some(p) => shell_words(p),
    }
}

/// The overlay enable flags, and the resolved preload list when available,
/// laid over a base environment.
pub open spec fn spec_overlay_env(
    base: Map<Seq<char>, Seq<char>>,
    se: SessionEnv,
) -> Map<Seq<char>, Seq<char>> {
    let m = base.insert("ENABLE_VK_LAYER_VALVE_steam_overlay_1"@, "1"@).insert(
        "ENABLE_GAMESCOPE_WSI"@,
        "1"@,
    );
    match se.spec_resolved_ld_preload() {
        Some(l) => m.insert("LD_PRELOAD"@, l),
        None => m,
    }
}

/// The two runtime paths passed through verbatim for the compatibility layer,
/// where the session has them.
pub open spec fn spec_passthrough_env(se: SessionEnv) -> Map<Seq<char>, Seq<char>> {
    let m0 = Map::<Seq<char>, Seq<char>>::empty();
    let m1 = match se.compat_data_path.deep_view() {
        Some(p) => m0.insert("STEAM_COMPAT_DATA_PATH"@, p),
        None => m0,
    };
    match se.client_install_path.deep_view() {
        Some(p) => m1.insert("STEAM_COMPAT_CLIENT_INSTALL_PATH"@, p),
        None => m1,
    }
}

/// The full argument vector for a native launch: the gamescope segment when
/// wrapping, the pre-command words, the literal command, then the extra
/// launch arguments.
pub open spec fn spec_native_argv(
    c: MergedConfig,
    se: SessionEnv,
    cmd: Seq<Seq<char>>,
) -> Option<Seq<Seq<char>>> {
    let prefix = if spec_uses_gamescope(c) {
        spec_gamescope_prefix(c.gamescope_args.deep_view()->0, se.spec_resolved_ld_preload())
    } else {
        Some(Seq::<Seq<char>>::empty())
    };
    match (prefix, spec_pre_words(c)) {
        (Some(p), Some(w)) => Some(p + w + cmd + seq_views(c.launch_args@)),
        _ => None,
    }
}

/// The environment for a native launch: the policy environment, and the
/// overlay variables when already inside a gamescope session (with no wrapper
/// of our own to carry them).
pub open spec fn spec_native_env(c: MergedConfig, se: SessionEnv) -> Map<Seq<char>, Seq<char>> {
    if c.is_gamescope_session {
        spec_overlay_env(c.env.as_map(), se)
    } else {
        c.env.as_map()
    }
}

/// The full argument vector for a Proton launch: the gamescope segment when
/// wrapping, the pre-command words, the Proton launcher and its run verb,
/// the literal command, then the extra launch arguments.
pub open spec fn spec_proton_argv(
    c: MergedConfig,
    se: SessionEnv,
    proton_path: Seq<char>,
    cmd: Seq<Seq<char>>,
) -> Option<Seq<Seq<char>>> {
    let prefix = if spec_uses_gamescope(c) {
        spec_gamescope_prefix(c.gamescope_args.deep_view()->0, se.spec_resolved_ld_preload())
    } else {
        Some(Seq::<Seq<char>>::empty())
    };
    match (prefix, spec_pre_words(c)) {
        (Some(p), Some(w)) => Some(
            p + w + seq![proton_path + "/proton"@, "waitforexitandrun"@] + cmd + seq_views(
                c.launch_args@,
            ),
        ),
        _ => None,
    }
}

/// The environment for a Proton launch: the passthrough paths, overridden by
/// the policy environment, overridden by the overlay variables when already
/// inside a gamescope session.
pub open spec fn spec_proton_env(c: MergedConfig, se: SessionEnv) -> Map<Seq<char>, Seq<char>> {
    let base = spec_passthrough_env(se).union_prefer_right(c.env.as_map());
    if c.is_gamescope_session {
        spec_overlay_env(base, se)
    } else {
        base
    }
}

/// Why a composition failed, pinned per error case.
pub open spec fn spec_compose_errs(c: MergedConfig, cmd_len: nat, r: AppError) -> bool {
    match r {
        AppError::NoCommand => cmd_len == 0,
        AppError::GamescopeArgsParse(a) => cmd_len > 0 && spec_uses_gamescope(c) && shell_words(
            a@,
        ) is None && Some(a@) == c.gamescope_args.deep_view(),
        AppError::PreCommandParse(p) => cmd_len > 0 && (spec_uses_gamescope(c)
            ==> shell_words(c.gamescope_args.deep_view()->0) is Some) && Some(p@)
            == c.spec_effective_pre_command() && shell_words(p@) is None,
        _ => false,
    }
}

/// Build the gamescope wrapper segment for a configured argument string.
fn build_gamescope_segment(args: &String, ld: Option<String>) -> (r: Result<
    Vec<String>,
    AppError,
>)
    ensures
        match r {
            Ok(v) => v.deep_view() == spec_gamescope_prefix(
                args@,
                ld.deep_view(),
            )->0 && spec_gamescope_prefix(args@, ld.deep_view()) is Some,
            Err(e) => shell_words(args@) is None && (e matches AppError::GamescopeArgsParse(a)
                && a@ == args@),
        },
{
    match split_shell_words(args.as_str()) {
        None => Err(AppError::GamescopeArgsParse(args.clone())),
        Some(ws) => {
            let mut v: Vec<String> = Vec::new();
            v.push(String::from_str("gamescope"));
            let mut ws = ws;
            v.append(&mut ws);
            v.push(String::from_str("--"));
            v.push(String::from_str("env"));
            v.push(String::from_str("ENABLE_VK_LAYER_VALVE_steam_overlay_1=1"));
            v.push(String::from_str("ENABLE_GAMESCOPE_WSI=1"));
            match ld {
                Some(l) => {
                    let mut s = String::from_str("LD_PRELOAD=");
                    s.append(l.as_str());
                    v.push(s);
                },
                None => {},
            }
            proof {
                assert(v.deep_view() =~= spec_gamescope_prefix(args@, ld.deep_view())->0);
            }
            Ok(v)
        },
    }
}

/// Append the effective pre-command's shell words to an argument vector.
fn append_pre_words(argv: &mut Vec<String>, c: &MergedConfig) -> (r: Result<(), AppError>)
    ensures
        match r {
            Ok(()) => spec_pre_words(*c) is Some && final(argv).deep_view() == old(
                argv,
            ).deep_view() + spec_pre_words(*c)->0,
            Err(e) => spec_pre_words(*c) is None && (e matches AppError::PreCommandParse(p)
                && Some(p@) == c.spec_effective_pre_command()) && *final(argv) == *old(argv),
        },
{
    match c.effective_pre_command() {
        Some(p) => {
            let pc = p.clone();
            match split_shell_words(pc.as_str()) {
                None => {
                    return Err(AppError::PreCommandParse(pc));
                },
                Some(ws) => {
                    let mut ws = ws;
                    let ghost words = ws.deep_view();
                    argv.append(&mut ws);
                    proof {
                        assert(argv.deep_view() =~= old(argv).deep_view() + words);
                    }
                },
            }
        },
        None => {
            proof {
                assert(argv.deep_view() =~= old(argv).deep_view() + spec_pre_words(*c)->0);
            }
        },
    }
    Ok(())
}

/// Append the literal command and the extra launch arguments.
fn append_tail(argv: &mut Vec<String>, c: &MergedConfig, command: Vec<String>)
    ensures
        final(argv).deep_view() == old(argv).deep_view() + command.deep_view() + seq_views(
            c.launch_args@,
        ),
{
    let ghost mid = argv.deep_view();
    let mut cmd = command;
    let ghost cmdv = cmd.deep_view();
    argv.append(&mut cmd);
    let mut la = clone_string_vec(&c.launch_args);
    proof {
        assert(la.deep_view() =~= seq_views(c.launch_args@));
    }
    let ghost lav = la.deep_view();
    argv.append(&mut la);
    proof {
        assert(argv.deep_view() =~= mid + cmdv + lav);
    }
}

/// Lay the overlay enable flags and the resolved preload list over an
/// environment.
fn apply_overlay_env(env: &mut EnvMap, se: &SessionEnv)
    requires
        old(env).wf(),
    ensures
        final(env).wf(),
        final(env).as_map() == spec_overlay_env(old(env).as_map(), *se),
{
    env.set(String::from_str("ENABLE_VK_LAYER_VALVE_steam_overlay_1"), String::from_str("1"));
    env.set(String::from_str("ENABLE_GAMESCOPE_WSI"), String::from_str("1"));
    match se.resolved_ld_preload() {
        Some(l) => {
            env.set(String::from_str("LD_PRELOAD"), l);
        },
        None => {},
    }
}

/// Runner for native launches.
pub struct NativeRunner<'a> {
    pub config: &'a MergedConfig,
}

impl<'a> NativeRunner<'a> {
    pub fn new(config: &'a MergedConfig) -> (r: NativeRunner<'a>)
        ensures
            r.config == config,
    {
        NativeRunner { config }
    }

    /// Compose the argument vector and environment for a native launch.
    /// Succeeds exactly when the command is non-empty and every configured
    /// gamescope-argument and pre-command string splits into shell words.
    pub fn compose(&self, se: &SessionEnv, command: Vec<String>) -> (r: Result<
        (Vec<String>, EnvMap),
        AppError,
    >)
        requires
            self.config.env.wf(),
        ensures
            match r {
                Ok(p) => {
                    &&& command@.len() > 0
                    &&& spec_native_argv(*self.config, *se, command.deep_view()) is Some
                    &&& p.0.deep_view() == spec_native_argv(
                        *self.config,
                        *se,
                        command.deep_view(),
                    )->0
                    &&& p.1.wf()
                    &&& p.1.as_map() == spec_native_env(*self.config, *se)
                },
                Err(e) => spec_compose_errs(*self.config, command@.len() as nat, e),
            },
    {
        if command.len() == 0 {
            return Err(AppError::NoCommand);
        }
        let c = self.config;
        let mut argv: Vec<String> = Vec::new();
        if c.gamescope_enabled && !c.is_gamescope_session {
            match &c.gamescope_args {
                Some(args) => {
                    let ld = se.resolved_ld_preload();
                    match build_gamescope_segment(args, ld) {
                        Ok(mut seg) => {
                            argv.append(&mut seg);
                        },
                        Err(e) => {
                            return Err(e);
                        },
                    }
                },
                None => {},
            }
        }
        let ghost prefix = argv.deep_view();
        match append_pre_words(&mut argv, c) {
            Ok(()) => {},
            Err(e) => {
                return Err(e);
            },
        }
        append_tail(&mut argv, c, command);
        let mut env = EnvMap::new();
        env.extend_with(&c.env);
        proof {
            assert(Map::<Seq<char>, Seq<char>>::empty().union_prefer_right(c.env.as_map())
                =~= c.env.as_map());
        }
        if c.is_gamescope_session {
            apply_overlay_env(&mut env, se);
        }
        proof {
            if spec_uses_gamescope(*c) {
                assert(argv.deep_view() =~= spec_native_argv(*c, *se, command.deep_view())->0);
            } else {
                assert(prefix =~= Seq::<Seq<char>>::empty());
                assert(argv.deep_view() =~= spec_native_argv(*c, *se, command.deep_view())->0);
            }
        }
        Ok((argv, env))
    }
}

/// Runner for launches through the Proton compatibility layer.
pub struct ProtonRunner<'a> {
    pub config: &'a MergedConfig,
    pub proton_path: String,
}

impl<'a> ProtonRunner<'a> {
    /// Pair a policy with a located Proton installation path.
    pub fn new(config: &'a MergedConfig, proton_path: String) -> (r: ProtonRunner<'a>)
        ensures
            r.config == config,
            r.proton_path@ == proton_path@,
    {
        ProtonRunner { config, proton_path }
    }

    /// Compose the argument vector and environment for a Proton launch.
    /// Succeeds exactly when the command is non-empty and every configured
    /// gamescope-argument and pre-command string splits into shell words.
    pub fn compose(&self, se: &SessionEnv, command: Vec<String>) -> (r: Result<
        (Vec<String>, EnvMap),
        AppError,
    >)
        requires
            self.config.env.wf(),
        ensures
            match r {
                Ok(p) => {
                    &&& command@.len() > 0
                    &&& spec_proton_argv(
                        *self.config,
                        *se,
                        self.proton_path@,
                        command.deep_view(),
                    ) is Some
                    &&& p.0.deep_view() == spec_proton_argv(
                        *self.config,
                        *se,
                        self.proton_path@,
                        command.deep_view(),
                    )->0
                    &&& p.1.wf()
                    &&& p.1.as_map() == spec_proton_env(*self.config, *se)
                },
                Err(e) => spec_compose_errs(*self.config, command@.len() as nat, e),
            },
    {
        if command.len() == 0 {
            return Err(AppError::NoCommand);
        }
        let c = self.config;
        let mut argv: Vec<String> = Vec::new();
        if c.gamescope_enabled && !c.is_gamescope_session {
            match &c.gamescope_args {
                Some(args) => {
                    let ld = se.resolved_ld_preload();
                    match build_gamescope_segment(args, ld) {
                        Ok(mut seg) => {
                            argv.append(&mut seg);
                        },
                        Err(e) => {
                            return Err(e);
                        },
                    }
                },
                None => {},
            }
        }
        let ghost prefix = argv.deep_view();
        match append_pre_words(&mut argv, c) {
            Ok(()) => {},
            Err(e) => {
                return Err(e);
            },
        }
        let mut proton_exe = self.proton_path.clone();
        proton_exe.append("/proton");
        let ghost before_runtime = argv.deep_view();
        argv.push(proton_exe);
        argv.push(String::from_str("waitforexitandrun"));
        proof {
            assert(argv.deep_view() =~= before_runtime + seq![
                self.proton_path@ + "/proton"@,
                "waitforexitandrun"@,
            ]);
        }
        append_tail(&mut argv, c, command);
        let mut env = EnvMap::new();
        match &se.compat_data_path {
            Some(p) => {
                env.set(String::from_str("STEAM_COMPAT_DATA_PATH"), p.clone());
            },
            None => {},
        }
        match &se.client_install_path {
            Some(p) => {
                env.set(String::from_str("STEAM_COMPAT_CLIENT_INSTALL_PATH"), p.clone());
            },
            None => {},
        }
        proof {
            assert(env.as_map() =~= spec_passthrough_env(*se));
        }
        env.extend_with(&c.env);
        if c.is_gamescope_session {
            apply_overlay_env(&mut env, se);
        }
        proof {
            if spec_uses_gamescope(*c) {
                assert(argv.deep_view() =~= spec_proton_argv(
                    *c,
                    *se,
                    self.proton_path@,
                    command.deep_view(),
                )->0);
            } else {
                assert(prefix =~= Seq::<Seq<char>>::empty());
                assert(argv.deep_view() =~= spec_proton_argv(
                    *c,
                    *se,
                    self.proton_path@,
                    command.deep_view(),
                )->0);
            }
        }
        Ok((argv, env))
    }
}

} // verus!
