use std::cmp::Ordering;

use steam_command_runner::error::AppError;
use steam_command_runner::installed::{
    collect_installed_games, extract_library_paths, parse_appmanifest, parse_vdf_key_value,
};
use steam_command_runner::locator::{
    compare_parts, compare_version_names, list_proton_versions, locate_proton,
    split_version_parts, DirEntry, SearchDir,
};

fn entry(name: &str, valid: bool) -> DirEntry {
    DirEntry { name: name.to_string(), path: format!("/tools/{}", name), valid }
}

#[test]
fn test_natural_ordering_sort() {
    // ["GE-Proton9-10","GE-Proton9-1","GE-Proton10-1"] sorts to
    // ["GE-Proton9-1","GE-Proton9-10","GE-Proton10-1"].
    let dirs = vec![SearchDir {
        path: "/tools".to_string(),
        entries: vec![
            entry("GE-Proton9-10", true),
            entry("GE-Proton9-1", true),
            entry("GE-Proton10-1", true),
        ],
    }];
    let sorted = list_proton_versions(&dirs);
    let names: Vec<&str> = sorted.iter().map(|e| e.name.as_str()).collect();
    assert_eq!(names, vec!["GE-Proton9-1", "GE-Proton9-10", "GE-Proton10-1"]);
}

#[test]
fn test_compare_version_names() {
    assert_eq!(compare_version_names("GE-Proton9-1", "GE-Proton9-10"), Ordering::Less);
    assert_eq!(compare_version_names("GE-Proton9-10", "GE-Proton10-1"), Ordering::Less);
    assert_eq!(compare_version_names("GE-Proton9-1", "GE-Proton9-1"), Ordering::Equal);
    assert_eq!(compare_version_names("Proton 9.0", "Proton 8.0"), Ordering::Greater);
    // A strict prefix sorts first.
    assert_eq!(compare_version_names("GE-Proton9", "GE-Proton9-1"), Ordering::Less);
}

#[test]
fn test_split_version_parts() {
    assert_eq!(split_version_parts("GE-Proton9-10"), vec!["GE-Proton", "9", "-", "10"]);
    assert_eq!(split_version_parts(""), Vec::<String>::new());
    assert_eq!(split_version_parts("123"), vec!["123"]);
}

#[test]
fn test_compare_parts() {
    assert_eq!(compare_parts("9", "10"), Ordering::Less);
    assert_eq!(compare_parts("abc", "ABD"), Ordering::Less);
    assert_eq!(compare_parts("9", "09"), Ordering::Equal);
}

#[test]
fn test_list_dedup_first_occurrence_wins() {
    let dirs = vec![
        SearchDir {
            path: "/a".to_string(),
            entries: vec![
                DirEntry { name: "GE-Proton9-1".to_string(), path: "/a/p".to_string(), valid: true },
                entry("Invalid", false),
            ],
        },
        SearchDir {
            path: "/b".to_string(),
            entries: vec![DirEntry {
                name: "GE-Proton9-1".to_string(),
                path: "/b/p".to_string(),
                valid: true,
            }],
        },
    ];
    let listed = list_proton_versions(&dirs);
    assert_eq!(listed.len(), 1);
    assert_eq!(listed[0].path, "/a/p");
}

#[test]
fn test_locate_exact_match_wins() {
    let dirs = vec![SearchDir {
        path: "/t".to_string(),
        entries: vec![entry("GE-Proton9-10", true), entry("GE-Proton9-1", true)],
    }];
    let p = locate_proton(Some("GE-Proton9-1"), &dirs, None).unwrap();
    assert_eq!(p, "/tools/GE-Proton9-1");
}

#[test]
fn test_locate_case_insensitive_substring() {
    let dirs = vec![SearchDir {
        path: "/t".to_string(),
        entries: vec![entry("GE-Proton9-10", true)],
    }];
    let p = locate_proton(Some("ge-proton9"), &dirs, None).unwrap();
    assert_eq!(p, "/tools/GE-Proton9-10");
}

#[test]
fn test_locate_not_found() {
    let dirs = vec![SearchDir { path: "/t".to_string(), entries: vec![entry("Other", true)] }];
    let r = locate_proton(Some("GE-Proton9-1"), &dirs, None);
    assert!(matches!(r, Err(AppError::ProtonNotFound(n)) if n == "GE-Proton9-1"));
}

#[test]
fn test_locate_any_prefers_override_then_newest_name() {
    let dirs = vec![SearchDir {
        path: "/t".to_string(),
        entries: vec![entry("Proton 8.0", true), entry("Proton 9.0", true), entry("zzz", true)],
    }];
    // Raw-name descending choice among proton entries.
    let p = locate_proton(None, &dirs, None).unwrap();
    assert_eq!(p, "/tools/Proton 9.0");

    let over = DirEntry { name: "x".to_string(), path: "/override".to_string(), valid: true };
    let p = locate_proton(None, &dirs, Some(&over)).unwrap();
    assert_eq!(p, "/override");

    let bad = DirEntry { name: "x".to_string(), path: "/override".to_string(), valid: false };
    let p = locate_proton(None, &dirs, Some(&bad)).unwrap();
    assert_eq!(p, "/tools/Proton 9.0");
}

#[test]
fn test_locate_any_searches_all_paths() {
    // The greatest raw name wins across every search path, not just the
    // first path that holds a proton entry.
    let dirs = vec![
        SearchDir {
            path: "/a".to_string(),
            entries: vec![DirEntry {
                name: "proton-a".to_string(),
                path: "/a/proton-a".to_string(),
                valid: true,
            }],
        },
        SearchDir {
            path: "/b".to_string(),
            entries: vec![DirEntry {
                name: "proton-z".to_string(),
                path: "/b/proton-z".to_string(),
                valid: true,
            }],
        },
    ];
    let p = locate_proton(None, &dirs, None).unwrap();
    assert_eq!(p, "/b/proton-z");

    // Among equal names the earliest path in priority order wins.
    let dirs = vec![
        SearchDir {
            path: "/a".to_string(),
            entries: vec![DirEntry {
                name: "proton-x".to_string(),
                path: "/a/proton-x".to_string(),
                valid: true,
            }],
        },
        SearchDir {
            path: "/b".to_string(),
            entries: vec![DirEntry {
                name: "proton-x".to_string(),
                path: "/b/proton-x".to_string(),
                valid: true,
            }],
        },
    ];
    let p = locate_proton(None, &dirs, None).unwrap();
    assert_eq!(p, "/a/proton-x");
}

#[test]
fn test_parse_vdf_key_value_record() {
    assert_eq!(
        parse_vdf_key_value("\t\"path\"\t\t\"/mnt/library\""),
        Some(("path", "/mnt/library".to_string()))
    );
    assert_eq!(parse_vdf_key_value("\"solo\""), None);
    assert_eq!(parse_vdf_key_value("plain"), None);
}

#[test]
fn test_extract_library_paths() {
    let record = [
        "\"libraryfolders\"",
        "{",
        "\t\"0\"",
        "\t{",
        "\t\t\"path\"\t\t\"/home/user/.steam/steam\"",
        "\t}",
        "\t\"1\"",
        "\t{",
        "\t\t\"path\"\t\t\"/mnt/games\"",
        "\t\t\"label\"\t\t\"big\"",
        "\t}",
        "}",
    ]
    .join("\n");
    let paths = extract_library_paths(&record);
    assert_eq!(paths, vec!["/home/user/.steam/steam", "/mnt/games"]);
}

#[test]
fn test_parse_appmanifest_content() {
    let manifest = [
        "\"AppState\"",
        "{",
        "\t\"appid\"\t\t\"1850570\"",
        "\t\"name\"\t\t\"Sample Game\"",
        "\t\"installdir\"\t\t\"SampleGame\"",
        "}",
    ]
    .join("\n");
    let game = parse_appmanifest(&manifest).unwrap();
    assert_eq!(game.app_id, 1850570);
    assert_eq!(game.name, "Sample Game");
    assert_eq!(game.install_dir, "SampleGame");

    let incomplete = "\"AppState\"\n{\n\t\"name\"\t\t\"No Id\"\n}";
    assert!(parse_appmanifest(incomplete).is_none());
}

#[test]
fn test_collect_installed_games_dedup_and_sort() {
    let m1 = "\"a\"\n{\n\t\"appid\"\t\"2\"\n\t\"name\"\t\"beta\"\n}".to_string();
    let m2 = "\"a\"\n{\n\t\"appid\"\t\"1\"\n\t\"name\"\t\"Alpha\"\n}".to_string();
    let m3 = "\"a\"\n{\n\t\"appid\"\t\"2\"\n\t\"name\"\t\"duplicate\"\n}".to_string();
    let games = collect_installed_games(&vec![m1, m2, m3]);
    assert_eq!(games.len(), 2);
    // Sorted by case-folded name; the first occurrence of an identifier wins.
    assert_eq!(games[0].name, "Alpha");
    assert_eq!(games[1].name, "beta");
    assert_eq!(games[1].app_id, 2);
}
