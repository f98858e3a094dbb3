use steam_command_runner::localconfig::{
    escape_vdf_string, generate_default_launch_options, is_our_launch_options, parse_key_value,
    parse_quoted_key,
};
use steam_command_runner::vdf_gen::{
    generate_compatibilitytool_vdf, generate_toolmanifest_vdf, proton_name_to_appid,
};

#[test]
fn test_proton_name_to_appid() {
    assert_eq!(proton_name_to_appid("Proton 9.0"), Some("2348590".to_string()));
    assert_eq!(proton_name_to_appid("Proton Experimental"), Some("1493710".to_string()));
    assert_eq!(proton_name_to_appid("1493710"), Some("1493710".to_string()));
    assert_eq!(proton_name_to_appid("Proton-GE"), None);
}

#[test]
fn test_generate_compatibilitytool_vdf() {
    let vdf = generate_compatibilitytool_vdf("my-tool", "My Tool");
    assert!(vdf.contains("\"my-tool\""));
    assert!(vdf.contains("\"display_name\" \"My Tool\""));
    assert!(vdf.contains("\"from_oslist\" \"windows\""));
    assert!(vdf.contains("\"to_oslist\" \"linux\""));
}

#[test]
fn test_generate_toolmanifest_vdf_without_proton() {
    let vdf = generate_toolmanifest_vdf(None);
    assert!(vdf.contains("\"version\" \"2\""));
    assert!(vdf.contains("/steam-command-runner compat %verb%"));
    assert!(!vdf.contains("require_tool_appid"));
}

#[test]
fn test_generate_toolmanifest_vdf_with_proton() {
    let vdf = generate_toolmanifest_vdf(Some("1493710"));
    assert!(vdf.contains("\"require_tool_appid\" \"1493710\""));
}

#[test]
fn test_generate_default_launch_options() {
    let options = generate_default_launch_options();
    assert_eq!(options, "gamescope -- %command%");
}

#[test]
fn test_is_our_launch_options() {
    assert!(is_our_launch_options("gamescope -- %command%"));
    assert!(is_our_launch_options(
        "gamescope $(steam-command-runner gamescope args) -- steam-command-runner run -- %command%"
    ));
    assert!(!is_our_launch_options("mangohud %command%"));
    assert!(!is_our_launch_options("gamemoderun %command%"));
}

#[test]
fn test_parse_quoted_key() {
    assert_eq!(parse_quoted_key("\"1850570\""), Some("1850570"));
    assert_eq!(parse_quoted_key("\"apps\""), Some("apps"));
    assert_eq!(parse_quoted_key("\"key\" \"value\""), None);
    assert_eq!(parse_quoted_key("not quoted"), None);
}

#[test]
fn test_parse_key_value() {
    let result = parse_key_value("\"LaunchOptions\"\t\t\"test options\"");
    assert_eq!(result, Some(("LaunchOptions", "test options".to_string())));

    let result = parse_key_value("\"key\"\t\"value with \\\"quotes\\\"\"");
    assert_eq!(result, Some(("key", "value with \"quotes\"".to_string())));
}

#[test]
fn test_escape_vdf_string() {
    assert_eq!(escape_vdf_string("test"), "test");
    assert_eq!(escape_vdf_string("test\"quote"), "test\\\"quote");
    assert_eq!(escape_vdf_string("test\\slash"), "test\\\\slash");
}

#[test]
fn test_quoted_key_with_open_brace() {
    assert_eq!(parse_quoted_key("  \"apps\" {"), Some("apps"));
}

#[test]
fn test_escape_then_parse_round_trip() {
    let escaped = escape_vdf_string("a \"b\" \\ c");
    let line = format!("\"k\" \"{}\"", escaped);
    let parsed = parse_key_value(&line);
    assert_eq!(parsed, Some(("k", "a \"b\" \\ c".to_string())));
}
