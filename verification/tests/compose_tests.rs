use steam_command_runner::compose::{
    build_ld_preload_with_overlay, detect_execution_mode, resolve_mode, NativeRunner,
    ProtonRunner, SessionEnv,
};
use steam_command_runner::config::{ExecutionMode, GameConfig, GlobalConfig, MergedConfig};
use steam_command_runner::error::AppError;

fn empty_session() -> SessionEnv {
    SessionEnv {
        overlay_paths: None,
        ld_preload: None,
        compat_data_path: None,
        client_install_path: None,
    }
}

fn plain_policy(is_session: bool) -> MergedConfig {
    let mut global = GlobalConfig::default();
    global.gamescope.enabled = false;
    MergedConfig::merge(global, None, is_session, None)
}

#[test]
fn test_compose_native_plain() {
    // Native mode, no compositor, no pre-command: the argument vector is the
    // literal command unchanged and the environment is the policy
    // environment only.
    let mut global = GlobalConfig::default();
    global.gamescope.enabled = false;
    global.env.set("DXVK_ASYNC".to_string(), "1".to_string());
    let config = MergedConfig::merge(global, None, false, None);
    let runner = NativeRunner::new(&config);
    let (argv, env) = runner
        .compose(&empty_session(), vec!["/games/bin".to_string(), "--level=2".to_string()])
        .unwrap();
    assert_eq!(argv, vec!["/games/bin", "--level=2"]);
    assert_eq!(env.len(), 1);
    assert_eq!(env.get("DXVK_ASYNC"), Some(&"1".to_string()));
    assert_eq!(env.get("ENABLE_GAMESCOPE_WSI"), None);
}

#[test]
fn test_compose_with_gamescope_wrapper() {
    // Compositor enabled and not already in a session: the argument vector
    // begins with the compositor binary, its arguments, the separator and
    // the inline environment segment, before the literal command.
    let mut global = GlobalConfig::default();
    global.gamescope.args = Some("-w 1920 -h 1080".to_string());
    let config = MergedConfig::merge(global, None, false, None);
    let runner = NativeRunner::new(&config);
    let (argv, _env) = runner
        .compose(&empty_session(), vec!["/games/bin".to_string()])
        .unwrap();
    assert_eq!(
        argv,
        vec![
            "gamescope",
            "-w",
            "1920",
            "-h",
            "1080",
            "--",
            "env",
            "ENABLE_VK_LAYER_VALVE_steam_overlay_1=1",
            "ENABLE_GAMESCOPE_WSI=1",
            "/games/bin",
        ]
    );
}

#[test]
fn test_compose_gamescope_carries_preload_inline() {
    let mut global = GlobalConfig::default();
    global.gamescope.args = Some("-f".to_string());
    let config = MergedConfig::merge(global, None, false, None);
    let runner = NativeRunner::new(&config);
    let se = SessionEnv {
        overlay_paths: Some("/steam/overlay64.so:/steam/overlay32.so".to_string()),
        ld_preload: Some("/other.so".to_string()),
        compat_data_path: None,
        client_install_path: None,
    };
    let (argv, env) = runner.compose(&se, vec!["/games/bin".to_string()]).unwrap();
    assert_eq!(
        argv,
        vec![
            "gamescope",
            "-f",
            "--",
            "env",
            "ENABLE_VK_LAYER_VALVE_steam_overlay_1=1",
            "ENABLE_GAMESCOPE_WSI=1",
            "LD_PRELOAD=/steam/overlay64.so:/steam/overlay32.so:/other.so",
            "/games/bin",
        ]
    );
    // The wrapper carries the variables; the process environment stays the
    // policy environment only.
    assert_eq!(env.len(), 0);
}

#[test]
fn test_compose_inside_session_skips_wrapper() {
    // Already inside a compositor session: wrapping is skipped even though
    // enabled, and the overlay variables land in the environment instead.
    let mut global = GlobalConfig::default();
    global.gamescope.args = Some("-f".to_string());
    let config = MergedConfig::merge(global, None, true, None);
    let runner = NativeRunner::new(&config);
    let se = SessionEnv {
        overlay_paths: Some("/steam/overlay64.so".to_string()),
        ld_preload: None,
        compat_data_path: None,
        client_install_path: None,
    };
    let (argv, env) = runner.compose(&se, vec!["/games/bin".to_string()]).unwrap();
    assert_eq!(argv, vec!["/games/bin"]);
    assert_eq!(env.get("ENABLE_VK_LAYER_VALVE_steam_overlay_1"), Some(&"1".to_string()));
    assert_eq!(env.get("ENABLE_GAMESCOPE_WSI"), Some(&"1".to_string()));
    assert_eq!(env.get("LD_PRELOAD"), Some(&"/steam/overlay64.so".to_string()));
}

#[test]
fn test_compose_pre_command_before_literal_command() {
    let mut global = GlobalConfig::default();
    global.gamescope.enabled = false;
    global.pre_command = Some("gamemoderun mangohud".to_string());
    let config = MergedConfig::merge(global, None, false, None);
    let runner = NativeRunner::new(&config);
    let (argv, _) = runner.compose(&empty_session(), vec!["/games/bin".to_string()]).unwrap();
    assert_eq!(argv, vec!["gamemoderun", "mangohud", "/games/bin"]);
}

#[test]
fn test_compose_launch_args_appended_last() {
    let mut global = GlobalConfig::default();
    global.gamescope.enabled = false;
    let mut game = GameConfig::default();
    game.launch_args = vec!["--skip-intro".to_string()];
    let config = MergedConfig::merge(global, Some(game), false, None);
    let runner = NativeRunner::new(&config);
    let (argv, _) = runner.compose(&empty_session(), vec!["/games/bin".to_string()]).unwrap();
    assert_eq!(argv, vec!["/games/bin", "--skip-intro"]);
}

#[test]
fn test_compose_empty_command_fails() {
    let config = plain_policy(false);
    let runner = NativeRunner::new(&config);
    let r = runner.compose(&empty_session(), vec![]);
    assert!(matches!(r, Err(AppError::NoCommand)));
}

#[test]
fn test_compose_bad_gamescope_args_fail() {
    let mut global = GlobalConfig::default();
    global.gamescope.args = Some("-w \"1920".to_string());
    let config = MergedConfig::merge(global, None, false, None);
    let runner = NativeRunner::new(&config);
    let r = runner.compose(&empty_session(), vec!["/games/bin".to_string()]);
    assert!(matches!(r, Err(AppError::GamescopeArgsParse(a)) if a == "-w \"1920"));
}

#[test]
fn test_compose_bad_pre_command_fails() {
    let mut global = GlobalConfig::default();
    global.gamescope.enabled = false;
    global.pre_command = Some("bad 'quote".to_string());
    let config = MergedConfig::merge(global, None, false, None);
    let runner = NativeRunner::new(&config);
    let r = runner.compose(&empty_session(), vec!["/games/bin".to_string()]);
    assert!(matches!(r, Err(AppError::PreCommandParse(p)) if p == "bad 'quote"));
}

#[test]
fn test_compose_proton_runtime_and_passthrough() {
    let mut global = GlobalConfig::default();
    global.gamescope.enabled = false;
    global.env.set("USER_VAR".to_string(), "yes".to_string());
    let config = MergedConfig::merge(global, None, false, None);
    let runner = ProtonRunner::new(&config, "/proton/9".to_string());
    let se = SessionEnv {
        overlay_paths: None,
        ld_preload: None,
        compat_data_path: Some("/compat/100".to_string()),
        client_install_path: Some("/steam".to_string()),
    };
    let (argv, env) = runner.compose(&se, vec!["/games/app.exe".to_string()]).unwrap();
    assert_eq!(argv, vec!["/proton/9/proton", "waitforexitandrun", "/games/app.exe"]);
    assert_eq!(env.get("STEAM_COMPAT_DATA_PATH"), Some(&"/compat/100".to_string()));
    assert_eq!(env.get("STEAM_COMPAT_CLIENT_INSTALL_PATH"), Some(&"/steam".to_string()));
    assert_eq!(env.get("USER_VAR"), Some(&"yes".to_string()));
}

#[test]
fn test_detect_execution_mode() {
    assert_eq!(detect_execution_mode("/g/app.exe"), ExecutionMode::Proton);
    assert_eq!(detect_execution_mode("/g/APP.EXE"), ExecutionMode::Proton);
    assert_eq!(detect_execution_mode("/g/setup.MSI"), ExecutionMode::Proton);
    assert_eq!(detect_execution_mode("/g/run.bat"), ExecutionMode::Proton);
    assert_eq!(detect_execution_mode("/g/game"), ExecutionMode::Native);
    assert_eq!(detect_execution_mode("/g/exe-games/run"), ExecutionMode::Native);
}

#[test]
fn test_resolve_mode() {
    assert_eq!(resolve_mode(ExecutionMode::Auto, "a.exe"), ExecutionMode::Proton);
    assert_eq!(resolve_mode(ExecutionMode::Auto, "a"), ExecutionMode::Native);
    assert_eq!(resolve_mode(ExecutionMode::Native, "a.exe"), ExecutionMode::Native);
    assert_eq!(resolve_mode(ExecutionMode::Proton, "a"), ExecutionMode::Proton);
}

#[test]
fn test_build_ld_preload() {
    let overlay = "/o64.so:/o32.so".to_string();
    assert_eq!(build_ld_preload_with_overlay(None, None), None);
    assert_eq!(
        build_ld_preload_with_overlay(Some(&overlay), None),
        Some("/o64.so:/o32.so".to_string())
    );
    let existing = "/x.so".to_string();
    assert_eq!(
        build_ld_preload_with_overlay(Some(&overlay), Some(&existing)),
        Some("/o64.so:/o32.so:/x.so".to_string())
    );
    let already = "/a/gameoverlayrenderer.so:/x.so".to_string();
    assert_eq!(
        build_ld_preload_with_overlay(Some(&overlay), Some(&already)),
        Some("/a/gameoverlayrenderer.so:/x.so".to_string())
    );
}
