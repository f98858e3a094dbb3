//! Generators for the two descriptor files of a Steam compatibility tool,
//! and the mapping from a Proton name to its store App ID.

use vstd::prelude::*;

use crate::text::{contains_sub, spec_all_digits, spec_contains, spec_lower, to_lowercase};

verus! {

/// The exact content of a compatibilitytool descriptor for one tool name and
/// display name.
pub open spec fn spec_compatibilitytool_vdf(name: Seq<char>, display_name: Seq<char>) -> Seq<
    char,
> {
    "\"compatibilitytools\"\n{\n  \"compat_tools\"\n  {\n    \""@ + name
        + "\"\n    {\n      \"install_path\" \".\"\n      \"display_name\" \""@ + display_name
        + "\"\n      \"from_oslist\" \"windows\"\n      \"to_oslist\" \"linux\"\n    }\n  }\n}\n"@
}

/// Generate the compatibilitytool descriptor.
pub fn generate_compatibilitytool_vdf(name: &str, display_name: &str) -> (r: String)
    ensures
        r@ == spec_compatibilitytool_vdf(name@, display_name@),
{
    let mut out = String::from_str(
        "\"compatibilitytools\"\n{\n  \"compat_tools\"\n  {\n    \"",
    );
    out.append(name);
    out.append("\"\n    {\n      \"install_path\" \".\"\n      \"display_name\" \"");
    out.append(display_name);
    out.append(
        "\"\n      \"from_oslist\" \"windows\"\n      \"to_oslist\" \"linux\"\n    }\n  }\n}\n",
    );
    out
}

/// The exact content of a tool manifest, with a required-tool line when a
/// Proton App ID is given.
pub open spec fn spec_toolmanifest_vdf(require_proton_appid: Option<Seq<char>>) -> Seq<char> {
    let require_line = match require_proton_appid {
        Some(appid) => "  \"require_tool_appid\" \""@ + appid + "\"\n"@,
        None => Seq::<char>::empty(),
    };
    "\"manifest\"\n{\n  \"version\" \"2\"\n  \"commandline\" \"/steam-command-runner compat %verb%\"\n"@
        + require_line + "  \"use_sessions\" \"1\"\n}\n"@
}

/// Generate the tool manifest.
pub fn generate_toolmanifest_vdf(require_proton_appid: Option<&str>) -> (r: String)
    ensures
        r@ == spec_toolmanifest_vdf(match require_proton_appid {
            Some(s) => Some(s@),
            None => None,
        }),
{
    let mut out = String::from_str(
        "\"manifest\"\n{\n  \"version\" \"2\"\n  \"commandline\" \"/steam-command-runner compat %verb%\"\n",
    );
    match require_proton_appid {
        Some(appid) => {
            out.append("  \"require_tool_appid\" \"");
            out.append(appid);
            out.append("\"\n");
        },
        None => {
            proof {
                assert(out@ + Seq::<char>::empty() =~= out@);
            }
        },
    }
    out.append("  \"use_sessions\" \"1\"\n}\n");
    out
}

/// The store App ID for a Proton name: the first matching family pattern
/// decides (the community build has none); otherwise a bare numeric name is
/// taken as an App ID itself.
pub open spec fn spec_proton_appid(name: Seq<char>) -> Option<Seq<char>> {
    let l = spec_lower(name);
    if spec_contains(l, "proton 9"@) {
        Some("2348590"@)
    } else if spec_contains(l, "proton 8"@) {
        Some("2348590"@)
    } else if spec_contains(l, "proton 7"@) {
        Some("1887720"@)
    } else if spec_contains(l, "proton experimental"@) {
        Some("1493710"@)
    } else if spec_contains(l, "proton hotfix"@) {
        Some("2180100"@)
    } else if spec_contains(l, "proton-ge"@) {
        None
    } else if name.len() > 0 && spec_all_digits(name) {
        Some(name)
    } else {
        None
    }
}

/// Map a Proton name to its store App ID, where one exists.
pub fn proton_name_to_appid(name: &str) -> (r: Option<String>)
    ensures
        r.deep_view() == spec_proton_appid(name@),
{
    let lower = to_lowercase(name);
    if contains_sub(lower.as_str(), "proton 9") {
        Some(String::from_str("2348590"))
    } else if contains_sub(lower.as_str(), "proton 8") {
        Some(String::from_str("2348590"))
    } else if contains_sub(lower.as_str(), "proton 7") {
        Some(String::from_str("1887720"))
    } else if contains_sub(lower.as_str(), "proton experimental") {
        Some(String::from_str("1493710"))
    } else if contains_sub(lower.as_str(), "proton hotfix") {
        Some(String::from_str("2180100"))
    } else if contains_sub(lower.as_str(), "proton-ge") {
        None
    } else {
        // A bare numeric name is taken as the App ID itself.  Oversized
        // numbers are still all-digit names, so the digit test is direct.
        let n: usize = name.unicode_len();
        let mut i: usize = 0;
        let mut all_digits: bool = true;
        while i < n
            invariant
                n == name@.len(),
                i <= n,
                all_digits == (forall|j: int|
                    0 <= j < i ==> crate::text::spec_is_digit(name@[j])),
            decreases n - i,
        {
            if !crate::text::is_digit_char(name.get_char(i)) {
                all_digits = false;
                proof {
                    assert(!crate::text::spec_is_digit(name@[i as int]));
                }
            }
            i = i + 1;
        }
        if n > 0 && all_digits {
            Some(name.to_owned())
        } else {
            None
        }
    }
}

} // verus!
