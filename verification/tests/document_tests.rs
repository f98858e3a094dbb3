use steam_command_runner::localconfig::{
    add_app_entry, get_launch_options, set_launch_options, LocalConfig,
};

fn sample_doc() -> String {
    [
        "\"UserLocalConfigStore\"",
        "{",
        "\t\"friends\"",
        "\t{",
        "\t\t\"VoiceReceiveVolume\"\t\t\"120\"",
        "\t}",
        "\t\"Software\"",
        "\t{",
        "\t\t\"Valve\"",
        "\t\t{",
        "\t\t\t\"Steam\"",
        "\t\t\t{",
        "\t\t\t\t\"apps\"",
        "\t\t\t\t{",
        "\t\t\t\t\t\"100\"",
        "\t\t\t\t\t{",
        "\t\t\t\t\t\t\"LaunchOptions\"\t\t\"old\"",
        "\t\t\t\t\t\t\"cloud\"\t\t\"1\"",
        "\t\t\t\t\t}",
        "\t\t\t\t\t\"200\"",
        "\t\t\t\t\t{",
        "\t\t\t\t\t\t\"LaunchOptions\"\t\t\"keep me\"",
        "\t\t\t\t\t}",
        "\t\t\t\t}",
        "\t\t\t}",
        "\t\t}",
        "\t}",
        "}",
        "",
    ]
    .join("\n")
}

#[test]
fn test_parse_builds_index() {
    let doc = LocalConfig::parse(&sample_doc());
    assert_eq!(doc.get_launch_options(100), Some(&"old".to_string()));
    assert_eq!(doc.get_launch_options(200), Some(&"keep me".to_string()));
    assert_eq!(doc.get_launch_options(300), None);
}

#[test]
fn test_set_replaces_existing_field() {
    let mut doc = LocalConfig::parse(&sample_doc());
    doc.set_launch_options(100, Some("X"));
    assert_eq!(doc.get_launch_options(100), Some(&"X".to_string()));
    assert!(doc.content().contains("\t\t\t\t\t\t\"LaunchOptions\"\t\t\"X\""));
    // The other application's block is untouched.
    assert!(doc.content().contains("\t\t\t\t\t\t\"LaunchOptions\"\t\t\"keep me\""));
}

#[test]
fn test_set_options_idempotent() {
    // Applying the same mutation twice yields byte-identical documents:
    // once on an existing field, once after inserting into a block without
    // one, and once after synthesizing a whole block.
    let mut doc = LocalConfig::parse(&sample_doc());
    doc.set_launch_options(100, Some("X"));
    let first = doc.content().to_string();
    doc.set_launch_options(100, Some("X"));
    assert_eq!(doc.content(), first);

    let mut doc = LocalConfig::parse(&sample_doc());
    doc.set_launch_options(300, Some("X"));
    let first = doc.content().to_string();
    doc.set_launch_options(300, Some("X"));
    assert_eq!(doc.content(), first);

    let no_field = ["\"root\"", "{", "\t\"apps\"", "\t{", "\t\t\"7\"", "\t\t{", "\t\t}", "\t}", "}"]
        .join("\n");
    let mut doc = LocalConfig::parse(&no_field);
    doc.set_launch_options(7, Some("X"));
    let first = doc.content().to_string();
    doc.set_launch_options(7, Some("X"));
    assert_eq!(doc.content(), first);
}

#[test]
fn test_patch_locality() {
    // Mutating application 100 leaves every byte of every other block and
    // section unchanged.
    let original = sample_doc();
    let mut doc = LocalConfig::parse(&original);
    doc.set_launch_options(100, Some("new value"));
    let patched = doc.content();

    let orig_lines: Vec<&str> = original.split('\n').collect();
    let new_lines: Vec<&str> = patched.split('\n').collect();
    assert_eq!(orig_lines.len(), new_lines.len());
    for (i, (o, n)) in orig_lines.iter().zip(new_lines.iter()).enumerate() {
        if i == 16 {
            assert_eq!(*n, "\t\t\t\t\t\t\"LaunchOptions\"\t\t\"new value\"");
        } else {
            assert_eq!(o, n, "line {} changed", i);
        }
    }
}

#[test]
fn test_set_inserts_field_before_closing_brace() {
    let doc_text = [
        "\"root\"",
        "{",
        "\t\"apps\"",
        "\t{",
        "\t\t\"42\"",
        "\t\t{",
        "\t\t\t\"cloud\"\t\t\"1\"",
        "\t\t}",
        "\t}",
        "}",
    ]
    .join("\n");
    let mut doc = LocalConfig::parse(&doc_text);
    doc.set_launch_options(42, Some("opt"));
    let expected = [
        "\"root\"",
        "{",
        "\t\"apps\"",
        "\t{",
        "\t\t\"42\"",
        "\t\t{",
        "\t\t\t\"cloud\"\t\t\"1\"",
        "\t\t\t\"LaunchOptions\"\t\t\"opt\"",
        "\t\t}",
        "\t}",
        "}",
    ]
    .join("\n");
    assert_eq!(doc.content(), expected);
}

#[test]
fn test_set_creates_new_block() {
    // A missing block is synthesized directly inside the applications
    // section, properly indented, with the escaped value; prior content is
    // untouched.
    let doc_text = ["\"root\"", "{", "\t\"apps\"", "\t{", "\t}", "}"].join("\n");
    let mut doc = LocalConfig::parse(&doc_text);
    doc.set_launch_options(777, Some("say \"hi\""));
    let expected = [
        "\"root\"",
        "{",
        "\t\"apps\"",
        "\t{",
        "\t\t\t\t\t\"777\"",
        "\t\t\t\t\t{",
        "\t\t\t\t\t\t\"LaunchOptions\"\t\t\"say \\\"hi\\\"\"",
        "\t\t\t\t\t}",
        "\t}",
        "}",
    ]
    .join("\n");
    assert_eq!(doc.content(), expected);
    assert_eq!(doc.get_launch_options(777), Some(&"say \"hi\"".to_string()));
}

#[test]
fn test_clear_removes_field_line() {
    let mut doc = LocalConfig::parse(&sample_doc());
    doc.set_launch_options(100, None);
    assert_eq!(doc.get_launch_options(100), None);
    assert!(!doc.content().contains("\"LaunchOptions\"\t\t\"old\""));
    assert!(doc.content().contains("\"LaunchOptions\"\t\t\"keep me\""));
}

#[test]
fn test_clear_missing_block_is_noop() {
    let original = sample_doc();
    let mut doc = LocalConfig::parse(&original);
    doc.set_launch_options(9999, None);
    assert_eq!(doc.content(), original);
}

#[test]
fn test_free_function_wrappers() {
    let mut doc = LocalConfig::parse(&sample_doc());
    set_launch_options(&mut doc, 100, Some("fresh"));
    assert_eq!(get_launch_options(&doc, 100), Some("fresh".to_string()));
}

#[test]
fn test_add_app_entry_inserts_after_section_brace() {
    let doc_text = ["\"root\"", "{", "\t\"apps\"", "\t{", "\t}", "}"].join("\n");
    let out = add_app_entry(&doc_text, 55, "v");
    let expected = [
        "\"root\"",
        "{",
        "\t\"apps\"",
        "\t{",
        "\t\t\t\t\t\"55\"",
        "\t\t\t\t\t{",
        "\t\t\t\t\t\t\"LaunchOptions\"\t\t\"v\"",
        "\t\t\t\t\t}",
        "\t}",
        "}",
    ]
    .join("\n");
    assert_eq!(out, expected);
}

#[test]
fn test_trailing_newline_preserved() {
    let original = sample_doc();
    assert!(original.ends_with('\n'));
    let mut doc = LocalConfig::parse(&original);
    doc.set_launch_options(100, Some("Y"));
    assert!(doc.content().ends_with('\n'));
}
