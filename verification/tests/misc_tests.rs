use steam_command_runner::error::AppError;
use steam_command_runner::search::{encode, take_results, SearchHit};
use steam_command_runner::shim::{compose_shim_args, parse_gamescope_args};
use steam_command_runner::text::{parse_u32, parse_u64, u32_to_string, u64_to_string};
use steam_command_runner::userdata::{
    account_id_of, get_localconfig_path, get_login_users_path, parse_user_ids, parse_user_names,
};
use steam_command_runner::verbs::{CompatToolContext, Verb};

#[test]
fn test_parse_gamescope_args_with_command() {
    let args = vec![
        "gamescope".to_string(),
        "-w".to_string(),
        "1920".to_string(),
        "-h".to_string(),
        "1080".to_string(),
        "--".to_string(),
        "/path/to/game".to_string(),
        "arg1".to_string(),
    ];

    let (gs_args, cmd) = parse_gamescope_args(args);

    assert_eq!(gs_args, vec!["-w", "1920", "-h", "1080"]);
    assert_eq!(cmd, vec!["/path/to/game", "arg1"]);
}

#[test]
fn test_parse_gamescope_args_no_command() {
    let args = vec!["gamescope".to_string(), "-f".to_string(), "--fullscreen".to_string()];

    let (gs_args, cmd) = parse_gamescope_args(args);

    assert_eq!(gs_args, vec!["-f", "--fullscreen"]);
    assert!(cmd.is_empty());
}

#[test]
fn test_parse_gamescope_args_empty() {
    let args = vec!["gamescope".to_string()];

    let (gs_args, cmd) = parse_gamescope_args(args);

    assert!(gs_args.is_empty());
    assert!(cmd.is_empty());
}

#[test]
fn test_compose_shim_args_full() {
    let out = compose_shim_args(
        vec!["-f".to_string()],
        vec!["/game".to_string(), "a".to_string()],
        Some("/o.so".to_string()),
        Some(&"mangohud".to_string()),
    );
    assert_eq!(out, vec!["-f", "--", "env", "LD_PRELOAD=/o.so", "mangohud", "/game", "a"]);
}

#[test]
fn test_compose_shim_args_without_command() {
    let out = compose_shim_args(
        vec!["-f".to_string()],
        vec![],
        Some("/o.so".to_string()),
        Some(&"mangohud".to_string()),
    );
    assert_eq!(out, vec!["-f"]);
}

#[test]
fn test_verb_parsing() {
    assert_eq!(Verb::from_str("waitforexitandrun").unwrap(), Verb::WaitForExitAndRun);
    assert_eq!(Verb::from_str("WaitForExitAndRun").unwrap(), Verb::WaitForExitAndRun);
    assert_eq!(Verb::from_str("run").unwrap(), Verb::Run);
    assert_eq!(Verb::from_str("getcompatpath").unwrap(), Verb::GetCompatPath);
    assert_eq!(Verb::from_str("getnativepath").unwrap(), Verb::GetNativePath);
    let r = Verb::from_str("destroy");
    assert!(matches!(r, Err(AppError::UnknownVerb(v)) if v == "destroy"));
}

#[test]
fn test_verb_behaviour() {
    assert!(Verb::WaitForExitAndRun.should_execute());
    assert!(Verb::WaitForExitAndRun.should_wait());
    assert!(Verb::Run.should_execute());
    assert!(!Verb::Run.should_wait());
    assert!(!Verb::GetCompatPath.should_execute());
    assert!(!Verb::GetNativePath.should_execute());
}

#[test]
fn test_compat_tool_context_from_parts() {
    let ctx = CompatToolContext::from_parts(
        "waitforexitandrun",
        vec!["/game/app.exe".to_string(), "-windowed".to_string()],
        Some(100),
        Some("/compat".to_string()),
        None,
        Some("100".to_string()),
    )
    .unwrap();
    assert_eq!(ctx.verb, Verb::WaitForExitAndRun);
    assert_eq!(ctx.game_path, "/game/app.exe");
    assert_eq!(ctx.game_args, vec!["-windowed"]);
    assert_eq!(ctx.steam_app_id, Some(100));

    let bad = CompatToolContext::from_parts("nope", vec![], None, None, None, None);
    assert!(bad.is_err());
}

#[test]
fn test_encode() {
    assert_eq!(encode("Half-Life"), "Half-Life");
    assert_eq!(encode("Half Life 2"), "Half+Life+2");
    assert_eq!(encode("a&b=c"), "a%26b%3Dc");
    assert_eq!(encode("tilde~dot._-ok"), "tilde~dot._-ok");
    assert_eq!(encode("%"), "%25");
}

#[test]
fn test_take_results() {
    let items = vec![
        SearchHit { app_id: 1, name: "a".to_string() },
        SearchHit { app_id: 2, name: "b".to_string() },
        SearchHit { app_id: 3, name: "c".to_string() },
    ];
    let taken = take_results(items, 2);
    assert_eq!(taken.len(), 2);
    assert_eq!(taken[0].app_id, 1);
    assert_eq!(taken[1].app_id, 2);
}

#[test]
fn test_number_round_trips() {
    assert_eq!(u32_to_string(0), "0");
    assert_eq!(u32_to_string(1850570), "1850570");
    assert_eq!(u64_to_string(76561197960265728), "76561197960265728");
    assert_eq!(parse_u32("1850570"), Some(1850570));
    assert_eq!(parse_u32(""), None);
    assert_eq!(parse_u32("12a"), None);
    assert_eq!(parse_u32("99999999999"), None);
    assert_eq!(parse_u64("18446744073709551615"), Some(u64::MAX));
    assert_eq!(parse_u64("18446744073709551616"), None);
}

#[test]
fn test_user_paths() {
    assert_eq!(
        get_localconfig_path("/home/u/.steam/steam", 123),
        "/home/u/.steam/steam/userdata/123/config/localconfig.vdf"
    );
    assert_eq!(
        get_login_users_path("/home/u/.steam/steam"),
        "/home/u/.steam/steam/config/loginusers.vdf"
    );
}

#[test]
fn test_parse_user_ids() {
    let names = vec![
        "123".to_string(),
        "0".to_string(),
        "anonymous".to_string(),
        "456".to_string(),
    ];
    assert_eq!(parse_user_ids(&names), vec![123, 456]);
}

#[test]
fn test_account_id_of() {
    assert_eq!(account_id_of(76561197960265728 + 42), Some(42));
    assert_eq!(account_id_of(76561197960265728), None);
    assert_eq!(account_id_of(5), None);
}

#[test]
fn test_parse_user_names() {
    let record = [
        "\"users\"",
        "{",
        "\t\"76561197960265770\"",
        "\t{",
        "\t\t\"AccountName\"\t\t\"login\"",
        "\t\t\"PersonaName\"\t\t\"Player One\"",
        "\t}",
        "\t\"76561197960265800\"",
        "\t{",
        "\t\t\"PersonaName\"\t\t\"Player Two\"",
        "\t}",
        "}",
    ]
    .join("\n");
    let mut users = parse_user_names(&record);
    users.sort_by_key(|u| u.account_id);
    assert_eq!(users.len(), 2);
    assert_eq!(users[0].account_id, 42);
    assert_eq!(users[0].name, "Player One");
    assert_eq!(users[1].account_id, 72);
    assert_eq!(users[1].name, "Player Two");
}
