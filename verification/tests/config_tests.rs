use steam_command_runner::config::{
    Config, ExecutionMode, GameConfig, GlobalConfig, HookConfig, MergedConfig,
};
use steam_command_runner::env_map::EnvMap;
use steam_command_runner::error::SteamCommandRunnerError;
use steam_command_runner::hooks::prepare_hook_args;
use steam_command_runner::runner::SteamCommandRunner;

#[test]
fn test_resolve_defaults() {
    // With no sources present the policy is the built-in default: automatic
    // mode, an empty environment, no pre-command.
    let merged = MergedConfig::merge(GlobalConfig::default(), None, false, None);
    assert_eq!(merged.mode, ExecutionMode::Auto);
    assert_eq!(merged.env.len(), 0);
    assert!(merged.pre_command.is_none());
    assert!(merged.proton.is_none());
    assert!(merged.pre_launch_hook.is_none());
    assert!(merged.post_exit_hook.is_none());
    assert!(merged.gamescope_enabled);
    assert!(merged.gamescope_args.is_none());
}

#[test]
fn test_env_merge_title_wins() {
    let mut global = GlobalConfig::default();
    global.env.set("A".to_string(), "1".to_string());
    let mut game = GameConfig::default();
    game.env.set("A".to_string(), "2".to_string());
    game.env.set("B".to_string(), "3".to_string());
    let merged = MergedConfig::merge(global, Some(game), false, Some(1));
    assert_eq!(merged.env.get("A"), Some(&"2".to_string()));
    assert_eq!(merged.env.get("B"), Some(&"3".to_string()));
    assert_eq!(merged.env.get("C"), None);
    assert_eq!(merged.env.len(), 2);
}

#[test]
fn test_pre_command_inherit() {
    let mut global = GlobalConfig::default();
    global.pre_command = Some("gamemoderun".to_string());
    let mut game = GameConfig::default();
    game.pre_command = Some("inherit mangohud".to_string());
    let merged = MergedConfig::merge(global, Some(game), false, None);
    assert_eq!(merged.pre_command, Some("gamemoderun mangohud".to_string()));
}

#[test]
fn test_pre_command_inherit_without_global() {
    let global = GlobalConfig::default();
    let mut game = GameConfig::default();
    game.pre_command = Some("inherit mangohud".to_string());
    let merged = MergedConfig::merge(global, Some(game), false, None);
    assert_eq!(merged.pre_command, Some("mangohud".to_string()));
}

#[test]
fn test_pre_command_replacement_without_inherit() {
    let mut global = GlobalConfig::default();
    global.pre_command = Some("gamemoderun".to_string());
    let mut game = GameConfig::default();
    game.pre_command = Some("mangohud".to_string());
    let merged = MergedConfig::merge(global, Some(game), false, None);
    assert_eq!(merged.pre_command, Some("mangohud".to_string()));
}

#[test]
fn test_scalar_overrides() {
    let mut global = GlobalConfig::default();
    global.default_mode = ExecutionMode::Native;
    global.default_proton = Some("Proton 9.0".to_string());
    let mut game = GameConfig::default();
    game.mode = Some(ExecutionMode::Proton);
    game.proton = Some("GE-Proton9-1".to_string());
    let merged = MergedConfig::merge(global, Some(game), false, Some(7));
    assert_eq!(merged.mode, ExecutionMode::Proton);
    assert_eq!(merged.proton, Some("GE-Proton9-1".to_string()));
    assert_eq!(merged.app_id, Some(7));
}

#[test]
fn test_hook_slot_replaced_wholesale() {
    let mut global = GlobalConfig::default();
    global.hooks.pre_launch = Some(HookConfig {
        command: "global-hook".to_string(),
        wait: true,
        working_dir: Some("/tmp".to_string()),
    });
    let mut game = GameConfig::default();
    game.hooks.pre_launch = Some(HookConfig {
        command: "game-hook".to_string(),
        wait: false,
        working_dir: None,
    });
    let merged = MergedConfig::merge(global, Some(game), false, None);
    let hook = merged.pre_launch_hook.unwrap();
    assert_eq!(hook.command, "game-hook");
    assert!(!hook.wait);
    assert!(hook.working_dir.is_none());
    // The post-exit slot falls back to the global hook (here absent).
    assert!(merged.post_exit_hook.is_none());
}

#[test]
fn test_effective_pre_command_in_session_with_skip() {
    let mut global = GlobalConfig::default();
    global.pre_command = Some("gamemoderun".to_string());
    global.gamescope.skip_pre_command = true;
    global.gamescope.pre_command = Some("mangohud".to_string());
    let merged = MergedConfig::merge(global, None, true, None);
    assert_eq!(merged.effective_pre_command(), Some(&"mangohud".to_string()));
}

#[test]
fn test_effective_pre_command_outside_session() {
    let mut global = GlobalConfig::default();
    global.pre_command = Some("gamemoderun".to_string());
    global.gamescope.pre_command = Some("mangohud".to_string());
    let merged = MergedConfig::merge(global, None, false, None);
    assert_eq!(merged.effective_pre_command(), Some(&"gamemoderun".to_string()));
}

#[test]
fn test_env_map_last_writer_wins() {
    let mut env = EnvMap::new();
    env.set("K".to_string(), "1".to_string());
    env.set("K".to_string(), "2".to_string());
    assert_eq!(env.len(), 1);
    assert_eq!(env.get("K"), Some(&"2".to_string()));
}

#[test]
fn test_runner_add_pre_command() {
    let runner =
        SteamCommandRunner::from_config(Config { pre_command: Some("env 'A B'".to_string()) })
            .unwrap();
    let mut args = vec!["game".to_string()];
    runner.add_pre_command(&mut args).unwrap();
    // The quoted pre-command splits into shell words, not raw text.
    assert_eq!(args, vec!["env", "A B", "game"]);
}

#[test]
fn test_runner_pre_command_unbalanced() {
    let runner =
        SteamCommandRunner::from_config(Config { pre_command: Some("bad 'quote".to_string()) })
            .unwrap();
    let mut args = vec!["game".to_string()];
    let r = runner.add_pre_command(&mut args);
    assert!(matches!(r, Err(SteamCommandRunnerError::CouldNotSplitPreCommand)));
    assert_eq!(args, vec!["game"]);
}

#[test]
fn test_prepare_hook_args() {
    let hook = HookConfig {
        command: "notify-send 'game started'".to_string(),
        wait: true,
        working_dir: None,
    };
    let words = prepare_hook_args(&hook).unwrap();
    assert_eq!(words, vec!["notify-send", "game started"]);

    let empty = HookConfig { command: "".to_string(), wait: true, working_dir: None };
    assert!(prepare_hook_args(&empty).is_err());

    let broken = HookConfig { command: "x \"open".to_string(), wait: false, working_dir: None };
    assert!(prepare_hook_args(&broken).is_err());
}
