//! Laws of the library: properties that relate several operations, proved
//! once and for all inputs.

use vstd::prelude::*;

use crate::compose::{
    spec_gamescope_prefix, spec_native_argv, spec_native_env, spec_pre_words, spec_uses_gamescope,
    SessionEnv,
};
use crate::config::MergedConfig;
use crate::localconfig::{
    spec_escape_vdf, spec_find_point, spec_apps_open, spec_patch_lines, spec_patch_point,
    spec_scan_value, PatchPoint,
};
use crate::shell::shell_words;

verus! {

/// The applications-section scan only ever points at a line of the document.
proof fn lemma_apps_open_range(
    lines: Seq<Seq<char>>,
    i: int,
    depth: int,
    in_apps: bool,
    apps_depth: int,
)
    requires
        0 <= i,
    ensures
        match spec_apps_open(lines, i, depth, in_apps, apps_depth) {
            Some(a) => i <= a < lines.len(),
            None => true,
        },
    decreases lines.len() - i,
{
    if 0 <= i < lines.len() {
        let t = crate::text::spec_trim(lines[i]);
        if t == "{"@ {
            if !(in_apps && depth + 1 == apps_depth) {
                lemma_apps_open_range(lines, i + 1, depth + 1, in_apps, apps_depth);
            }
        } else {
            let depth1 = if t == "}"@ {
                depth - 1
            } else {
                depth
            };
            let in_apps1 = if t == "}"@ {
                in_apps && !(depth1 < apps_depth)
            } else {
                in_apps
            };
            if crate::text::spec_starts_with(t, "\"apps\""@) {
                lemma_apps_open_range(lines, i + 1, depth1, true, depth1 + 1);
            } else {
                lemma_apps_open_range(lines, i + 1, depth1, in_apps1, apps_depth);
            }
        }
    }
}

/// The patch-point scan only ever points at a line of the document.
proof fn lemma_find_point_range(
    lines: Seq<Seq<char>>,
    i: int,
    depth: int,
    in_apps: bool,
    apps_depth: int,
    in_target: bool,
    target_depth: int,
    target_seen: bool,
    id: Seq<char>,
)
    requires
        0 <= i,
    ensures
        match spec_find_point(
            lines,
            i,
            depth,
            in_apps,
            apps_depth,
            in_target,
            target_depth,
            target_seen,
            id,
        ) {
            PatchPoint::Field(f) => i <= f < lines.len(),
            PatchPoint::CloseBrace(c) => i <= c < lines.len(),
            PatchPoint::NewBlockAfter(a) => 0 <= a < lines.len(),
            PatchPoint::Nowhere => true,
        },
    decreases lines.len() - i,
{
    if i >= lines.len() {
        if !target_seen {
            lemma_apps_open_range(lines, 0, 0, false, 0);
        }
    } else {
        let t = crate::text::spec_trim(lines[i]);
        if !(in_target && t == "}"@ && depth == target_depth) {
            let depth1 = if t == "{"@ {
                depth + 1
            } else if t == "}"@ {
                depth - 1
            } else {
                depth
            };
            let in_apps1 = if t == "}"@ {
                in_apps && !(depth1 < apps_depth)
            } else {
                in_apps
            };
            let in_target1 = if t == "}"@ {
                in_target && !(depth1 < target_depth)
            } else {
                in_target
            };
            let in_apps2 = if crate::text::spec_starts_with(t, "\"apps\""@) {
                true
            } else {
                in_apps1
            };
            let apps_depth2 = if crate::text::spec_starts_with(t, "\"apps\""@) {
                depth1 + 1
            } else {
                apps_depth
            };
            let hit = in_apps2 && !in_target1 && crate::localconfig::spec_parse_quoted_key(
                lines[i],
            ) == Some(id);
            let in_target2 = if hit {
                true
            } else {
                in_target1
            };
            let target_depth2 = if hit {
                depth1 + 1
            } else {
                target_depth
            };
            let target_seen2 = target_seen || hit;
            if !(in_target2 && crate::localconfig::spec_is_options_line(lines[i])) {
                lemma_find_point_range(
                    lines,
                    i + 1,
                    depth1,
                    in_apps2,
                    apps_depth2,
                    in_target2,
                    target_depth2,
                    target_seen2,
                    id,
                );
            }
        }
    }
}

/// Patch locality: patching one application's field touches a single line
/// window of the document, at most one line wide, and leaves every line
/// outside that window exactly as it was.  Since joining the lines restores
/// the text byte for byte, every byte outside the window survives unchanged.
pub proof fn lemma_patch_locality(lines: Seq<Seq<char>>, id: Seq<char>, opt: Option<Seq<char>>)
    ensures
        exists|lo: int, hi: int, repl: Seq<Seq<char>>|
            {
                &&& 0 <= lo <= hi <= lines.len()
                &&& hi - lo <= 1
                &&& #[trigger] spec_patch_lines(lines, id, opt) == lines.subrange(0, lo) + repl
                    + lines.subrange(hi, lines.len() as int)
            },
{
    lemma_find_point_range(lines, 0, 0, false, 0, false, 0, false, id);
    let r = spec_patch_lines(lines, id, opt);
    match spec_patch_point(lines, id) {
        PatchPoint::Field(f) => {
            match opt {
                Some(v) => {
                    let repl = seq![
                        crate::localconfig::spec_field_line(
                            crate::localconfig::spec_line_indent(lines[f]),
                            v,
                        ),
                    ];
                    assert(r == lines.subrange(0, f) + repl + lines.subrange(
                        f + 1,
                        lines.len() as int,
                    ));
                },
                None => {
                    let repl = Seq::<Seq<char>>::empty();
                    assert(r =~= lines.subrange(0, f) + repl + lines.subrange(
                        f + 1,
                        lines.len() as int,
                    ));
                },
            }
        },
        PatchPoint::CloseBrace(c) => {
            match opt {
                Some(v) => {
                    let repl = seq![
                        crate::localconfig::spec_field_line(
                            crate::localconfig::spec_line_indent(lines[c]) + "\t"@,
                            v,
                        ),
                    ];
                    assert(r == lines.subrange(0, c) + repl + lines.subrange(
                        c,
                        lines.len() as int,
                    ));
                },
                None => {
                    let repl = Seq::<Seq<char>>::empty();
                    assert(r =~= lines.subrange(0, 0) + repl + lines.subrange(
                        0,
                        lines.len() as int,
                    ));
                },
            }
        },
        PatchPoint::NewBlockAfter(a) => {
            match opt {
                Some(v) => {
                    let repl = crate::localconfig::spec_new_block(id, v);
                    assert(r == lines.subrange(0, a + 1) + repl + lines.subrange(
                        a + 1,
                        lines.len() as int,
                    ));
                },
                None => {
                    let repl = Seq::<Seq<char>>::empty();
                    assert(r =~= lines.subrange(0, 0) + repl + lines.subrange(
                        0,
                        lines.len() as int,
                    ));
                },
            }
        },
        PatchPoint::Nowhere => {
            let repl = Seq::<Seq<char>>::empty();
            assert(r =~= lines.subrange(0, 0) + repl + lines.subrange(0, lines.len() as int));
        },
    }
}

/// Escaping round-trip: a value written escaped between quotes reads back
/// exactly, whatever follows the closing quote.
pub proof fn lemma_escape_roundtrip(v: Seq<char>, rest: Seq<char>)
    ensures
        spec_scan_value(spec_escape_vdf(v) + seq!['"'] + rest) == v,
    decreases v.len(),
{
    let s = spec_escape_vdf(v) + seq!['"'] + rest;
    if v.len() == 0 {
        assert(spec_escape_vdf(v) =~= Seq::<char>::empty());
        assert(s =~= seq!['"'] + rest);
        assert(s[0] == '"');
    } else {
        lemma_escape_roundtrip(v.drop_first(), rest);
        let tail = spec_escape_vdf(v.drop_first()) + seq!['"'] + rest;
        if v[0] == '\\' {
            assert(spec_escape_vdf(v) =~= seq!['\\', '\\'] + spec_escape_vdf(v.drop_first()));
            assert(s =~= seq!['\\', '\\'] + tail);
            assert(s.skip(2) =~= tail);
            assert(spec_scan_value(s) =~= seq!['\\'] + v.drop_first());
            assert(seq![v[0]] + v.drop_first() =~= v);
        } else if v[0] == '"' {
            assert(spec_escape_vdf(v) =~= seq!['\\', '"'] + spec_escape_vdf(v.drop_first()));
            assert(s =~= seq!['\\', '"'] + tail);
            assert(s.skip(2) =~= tail);
            assert(spec_scan_value(s) =~= seq!['"'] + v.drop_first());
            assert(seq![v[0]] + v.drop_first() =~= v);
        } else {
            assert(spec_escape_vdf(v) =~= seq![v[0]] + spec_escape_vdf(v.drop_first()));
            assert(s =~= seq![v[0]] + tail);
            assert(s.drop_first() =~= tail);
            assert(spec_scan_value(s) =~= seq![v[0]] + v.drop_first());
            assert(seq![v[0]] + v.drop_first() =~= v);
        }
    }
}

/// Environment layering: in the merged policy's environment, a key bound by
/// the per-title source carries the per-title value, and a key bound only by
/// the global source carries the global value.
pub proof fn lemma_env_merge_title_wins(
    global: Map<Seq<char>, Seq<char>>,
    title: Map<Seq<char>, Seq<char>>,
    k: Seq<char>,
)
    ensures
        title.contains_key(k) ==> global.union_prefer_right(title).contains_key(k)
            && global.union_prefer_right(title)[k] == title[k],
        !title.contains_key(k) && global.contains_key(k) ==> global.union_prefer_right(
            title,
        ).contains_key(k) && global.union_prefer_right(title)[k] == global[k],
        !title.contains_key(k) && !global.contains_key(k) ==> !global.union_prefer_right(
            title,
        ).contains_key(k),
{
}

/// A plain native launch: with no compositor in play, no pre-command and no
/// extra launch arguments, the argument vector is the literal command
/// unchanged and the environment is the policy environment alone.
pub proof fn lemma_compose_native_plain(c: MergedConfig, se: SessionEnv, cmd: Seq<Seq<char>>)
    requires
        !spec_uses_gamescope(c),
        !c.is_gamescope_session,
        c.spec_effective_pre_command() is None,
        c.launch_args@.len() == 0,
    ensures
        spec_native_argv(c, se, cmd) == Some(cmd),
        spec_native_env(c, se) == c.env.as_map(),
{
    assert(spec_pre_words(c) == Some(Seq::<Seq<char>>::empty()));
    assert(crate::compose::seq_views(c.launch_args@) =~= Seq::<Seq<char>>::empty());
    assert(Seq::<Seq<char>>::empty() + Seq::<Seq<char>>::empty() + cmd + Seq::<Seq<char>>::empty()
        =~= cmd);
}

/// A wrapped launch: with the compositor enabled, a session not yet running
/// and splittable settings, the argument vector begins with the compositor
/// binary, its arguments, the separator and the inline environment segment,
/// before the pre-command words, the command and the extra arguments.
pub proof fn lemma_compose_native_gamescope(c: MergedConfig, se: SessionEnv, cmd: Seq<Seq<char>>)
    requires
        spec_uses_gamescope(c),
        shell_words(c.gamescope_args.deep_view()->0) is Some,
        spec_pre_words(c) is Some,
    ensures
        spec_native_argv(c, se, cmd) == Some(
            seq!["gamescope"@] + shell_words(c.gamescope_args.deep_view()->0)->0 + seq![
                "--"@,
                "env"@,
                "ENABLE_VK_LAYER_VALVE_steam_overlay_1=1"@,
                "ENABLE_GAMESCOPE_WSI=1"@,
            ] + (match se.spec_resolved_ld_preload() {
                Some(l) => seq!["LD_PRELOAD="@ + l],
                None => Seq::<Seq<char>>::empty(),
            }) + spec_pre_words(c)->0 + cmd + crate::compose::seq_views(c.launch_args@),
        ),
{
    assert(spec_gamescope_prefix(
        c.gamescope_args.deep_view()->0,
        se.spec_resolved_ld_preload(),
    ) is Some);
}

/// The wrapped launch through the compatibility layer: the same compositor
/// segment opens the argument vector before the runtime launcher, its run
/// verb and the command.
pub proof fn lemma_compose_proton_gamescope(
    c: MergedConfig,
    se: SessionEnv,
    proton_path: Seq<char>,
    cmd: Seq<Seq<char>>,
)
    requires
        spec_uses_gamescope(c),
        shell_words(c.gamescope_args.deep_view()->0) is Some,
        spec_pre_words(c) is Some,
    ensures
        crate::compose::spec_proton_argv(c, se, proton_path, cmd) == Some(
            seq!["gamescope"@] + shell_words(c.gamescope_args.deep_view()->0)->0 + seq![
                "--"@,
                "env"@,
                "ENABLE_VK_LAYER_VALVE_steam_overlay_1=1"@,
                "ENABLE_GAMESCOPE_WSI=1"@,
            ] + (match se.spec_resolved_ld_preload() {
                Some(l) => seq!["LD_PRELOAD="@ + l],
                None => Seq::<Seq<char>>::empty(),
            }) + spec_pre_words(c)->0 + seq![proton_path + "/proton"@, "waitforexitandrun"@] + cmd
                + crate::compose::seq_views(c.launch_args@),
        ),
{
    assert(spec_gamescope_prefix(
        c.gamescope_args.deep_view()->0,
        se.spec_resolved_ld_preload(),
    ) is Some);
}

/// A compatibility-layer launch already inside a compositor session never
/// wraps again either.
pub proof fn lemma_compose_proton_in_session(
    c: MergedConfig,
    se: SessionEnv,
    proton_path: Seq<char>,
    cmd: Seq<Seq<char>>,
)
    requires
        c.is_gamescope_session,
        spec_pre_words(c) is Some,
    ensures
        !spec_uses_gamescope(c),
        crate::compose::spec_proton_argv(c, se, proton_path, cmd) == Some(
            spec_pre_words(c)->0 + seq![proton_path + "/proton"@, "waitforexitandrun"@] + cmd
                + crate::compose::seq_views(c.launch_args@),
        ),
{
    assert(Seq::<Seq<char>>::empty() + spec_pre_words(c)->0 + seq![
        proton_path + "/proton"@,
        "waitforexitandrun"@,
    ] + cmd + crate::compose::seq_views(c.launch_args@) =~= spec_pre_words(c)->0 + seq![
        proton_path + "/proton"@,
        "waitforexitandrun"@,
    ] + cmd + crate::compose::seq_views(c.launch_args@));
}

/// A launch already inside a compositor session never wraps again: the
/// compositor segment is absent from the argument vector even when the
/// policy enables it.
pub proof fn lemma_compose_in_session(c: MergedConfig, se: SessionEnv, cmd: Seq<Seq<char>>)
    requires
        c.is_gamescope_session,
        spec_pre_words(c) is Some,
    ensures
        !spec_uses_gamescope(c),
        spec_native_argv(c, se, cmd) == Some(
            spec_pre_words(c)->0 + cmd + crate::compose::seq_views(c.launch_args@),
        ),
{
    assert(Seq::<Seq<char>>::empty() + spec_pre_words(c)->0 + cmd + crate::compose::seq_views(
        c.launch_args@,
    ) =~= spec_pre_words(c)->0 + cmd + crate::compose::seq_views(c.launch_args@));
}

/// Once the target block has been seen, the scan can no longer ask for a
/// new block.
proof fn lemma_seen_no_new_block(
    lines: Seq<Seq<char>>,
    i: int,
    depth: int,
    in_apps: bool,
    apps_depth: int,
    in_target: bool,
    target_depth: int,
    id: Seq<char>,
)
    ensures
        !(spec_find_point(lines, i, depth, in_apps, apps_depth, in_target, target_depth, true, id)
            is NewBlockAfter),
    decreases lines.len() - i,
{
    if 0 <= i < lines.len() {
        let t = crate::text::spec_trim(lines[i]);
        if !(in_target && t == "}"@ && depth == target_depth) {
            let depth1 = if t == "{"@ {
                depth + 1
            } else if t == "}"@ {
                depth - 1
            } else {
                depth
            };
            let in_apps1 = if t == "}"@ {
                in_apps && !(depth1 < apps_depth)
            } else {
                in_apps
            };
            let in_target1 = if t == "}"@ {
                in_target && !(depth1 < target_depth)
            } else {
                in_target
            };
            let in_apps2 = if crate::text::spec_starts_with(t, "\"apps\""@) {
                true
            } else {
                in_apps1
            };
            let apps_depth2 = if crate::text::spec_starts_with(t, "\"apps\""@) {
                depth1 + 1
            } else {
                apps_depth
            };
            let hit = in_apps2 && !in_target1 && crate::localconfig::spec_parse_quoted_key(
                lines[i],
            ) == Some(id);
            let in_target2 = if hit {
                true
            } else {
                in_target1
            };
            let target_depth2 = if hit {
                depth1 + 1
            } else {
                target_depth
            };
            if !(in_target2 && crate::localconfig::spec_is_options_line(lines[i])) {
                lemma_seen_no_new_block(
                    lines,
                    i + 1,
                    depth1,
                    in_apps2,
                    apps_depth2,
                    in_target2,
                    target_depth2,
                    id,
                );
            }
        }
    }
}

/// Replacing the line the scan returns at, by a line that reads as the
/// written field line, makes the scan return the field at the same place.
proof fn lemma_scan_replaced_line(
    l1: Seq<Seq<char>>,
    l2: Seq<Seq<char>>,
    i: int,
    depth: int,
    in_apps: bool,
    apps_depth: int,
    in_target: bool,
    target_depth: int,
    target_seen: bool,
    id: Seq<char>,
    f: int,
)
    requires
        0 <= i <= f,
        f < l1.len(),
        f < l2.len(),
        forall|j: int| i <= j < f ==> l1[j] == l2[j],
        spec_find_point(l1, i, depth, in_apps, apps_depth, in_target, target_depth, target_seen, id)
            == PatchPoint::Field(f) || spec_find_point(
            l1,
            i,
            depth,
            in_apps,
            apps_depth,
            in_target,
            target_depth,
            target_seen,
            id,
        ) == PatchPoint::CloseBrace(f),
        crate::localconfig::spec_is_options_line(l2[f]),
        crate::localconfig::spec_parse_quoted_key(l2[f]) is None,
        crate::text::spec_trim(l2[f]) != "{"@,
        crate::text::spec_trim(l2[f]) != "}"@,
        !crate::text::spec_starts_with(crate::text::spec_trim(l2[f]), "\"apps\""@),
    ensures
        spec_find_point(l2, i, depth, in_apps, apps_depth, in_target, target_depth, target_seen, id)
            == PatchPoint::Field(f),
    decreases f - i,
{
    let r1 = spec_find_point(
        l1,
        i,
        depth,
        in_apps,
        apps_depth,
        in_target,
        target_depth,
        target_seen,
        id,
    );
    if i == f {
        let t1 = crate::text::spec_trim(l1[f]);
        if in_target && t1 == "}"@ && depth == target_depth {
            // The scan returned at the block's closing brace.
            assert(in_target);
        } else {
            let depth1 = if t1 == "{"@ {
                depth + 1
            } else if t1 == "}"@ {
                depth - 1
            } else {
                depth
            };
            let in_apps1 = if t1 == "}"@ {
                in_apps && !(depth1 < apps_depth)
            } else {
                in_apps
            };
            let in_target1 = if t1 == "}"@ {
                in_target && !(depth1 < target_depth)
            } else {
                in_target
            };
            let in_apps2 = if crate::text::spec_starts_with(t1, "\"apps\""@) {
                true
            } else {
                in_apps1
            };
            let apps_depth2 = if crate::text::spec_starts_with(t1, "\"apps\""@) {
                depth1 + 1
            } else {
                apps_depth
            };
            let hit = in_apps2 && !in_target1 && crate::localconfig::spec_parse_quoted_key(
                l1[f],
            ) == Some(id);
            let in_target2 = if hit {
                true
            } else {
                in_target1
            };
            let target_depth2 = if hit {
                depth1 + 1
            } else {
                target_depth
            };
            let target_seen2 = target_seen || hit;
            if in_target2 && crate::localconfig::spec_is_options_line(l1[f]) {
                // The scan returned at the existing field line; such a line
                // is no key and no brace, so the block was open before it.
                crate::localconfig::lemma_options_line_props(l1[f]);
                assert(t1 != "{"@ && t1 != "}"@);
                assert(!hit);
                assert(in_target1 == in_target);
                assert(in_target);
            } else {
                // The scan would move on past `f`, against the hypothesis.
                lemma_find_point_range(
                    l1,
                    f + 1,
                    depth1,
                    in_apps2,
                    apps_depth2,
                    in_target2,
                    target_depth2,
                    target_seen2,
                    id,
                );
                assert(r1 == spec_find_point(
                    l1,
                    f + 1,
                    depth1,
                    in_apps2,
                    apps_depth2,
                    in_target2,
                    target_depth2,
                    target_seen2,
                    id,
                ));
                assert(false);
            }
        }
        // The replacement line keeps the scan inside the block and reads as
        // the field.
        let t2 = crate::text::spec_trim(l2[f]);
        assert(!(in_target && t2 == "}"@ && depth == target_depth));
        assert(spec_find_point(
            l2,
            f,
            depth,
            in_apps,
            apps_depth,
            in_target,
            target_depth,
            target_seen,
            id,
        ) == PatchPoint::Field(f));
    } else {
        let t = crate::text::spec_trim(l1[i]);
        assert(l1[i] == l2[i]);
        if in_target && t == "}"@ && depth == target_depth {
            assert(r1 == PatchPoint::CloseBrace(i));
            assert(false);
        } else {
            let depth1 = if t == "{"@ {
                depth + 1
            } else if t == "}"@ {
                depth - 1
            } else {
                depth
            };
            let in_apps1 = if t == "}"@ {
                in_apps && !(depth1 < apps_depth)
            } else {
                in_apps
            };
            let in_target1 = if t == "}"@ {
                in_target && !(depth1 < target_depth)
            } else {
                in_target
            };
            let in_apps2 = if crate::text::spec_starts_with(t, "\"apps\""@) {
                true
            } else {
                in_apps1
            };
            let apps_depth2 = if crate::text::spec_starts_with(t, "\"apps\""@) {
                depth1 + 1
            } else {
                apps_depth
            };
            let hit = in_apps2 && !in_target1 && crate::localconfig::spec_parse_quoted_key(
                l1[i],
            ) == Some(id);
            let in_target2 = if hit {
                true
            } else {
                in_target1
            };
            let target_depth2 = if hit {
                depth1 + 1
            } else {
                target_depth
            };
            let target_seen2 = target_seen || hit;
            if in_target2 && crate::localconfig::spec_is_options_line(l1[i]) {
                assert(r1 == PatchPoint::Field(i));
                assert(false);
            }
            lemma_scan_replaced_line(
                l1,
                l2,
                i + 1,
                depth1,
                in_apps2,
                apps_depth2,
                in_target2,
                target_depth2,
                target_seen2,
                id,
                f,
            );
        }
    }
}

/// After a new block is spliced in directly behind the applications
/// section's opening brace, the scan finds its field line.
proof fn lemma_scan_new_block(
    l1: Seq<Seq<char>>,
    l2: Seq<Seq<char>>,
    i: int,
    depth: int,
    in_apps: bool,
    apps_depth: int,
    target_depth: int,
    id: Seq<char>,
    v: Seq<char>,
    a: int,
)
    requires
        0 <= i <= a,
        a < l1.len(),
        l2 == l1.subrange(0, a + 1) + crate::localconfig::spec_new_block(id, v) + l1.subrange(
            a + 1,
            l1.len() as int,
        ),
        spec_apps_open(l1, i, depth, in_apps, apps_depth) == Some(a),
        spec_find_point(l1, i, depth, in_apps, apps_depth, false, target_depth, false, id)
            == PatchPoint::NewBlockAfter(a),
        id.len() > 0,
        crate::text::spec_all_digits(id),
    ensures
        spec_find_point(l2, i, depth, in_apps, apps_depth, false, target_depth, false, id)
            == PatchPoint::Field(a + 3),
    decreases a - i,
{
    reveal_strlit("\t\t\t\t\t");
    reveal_strlit("\t\t\t\t\t\t");
    reveal_strlit("\t\t\t\t\t\"");
    reveal_strlit("\t\t\t\t\t{");
    reveal_strlit("\t\t\t\t\t}");
    reveal_strlit("\t\t\t\t\t\t\"LaunchOptions\"\t\t\"");
    reveal_strlit("\"LaunchOptions\"\t\t\"");
    reveal_strlit("\"");
    reveal_strlit("{");
    reveal_strlit("}");
    reveal_strlit("\"apps\"");
    let nb = crate::localconfig::spec_new_block(id, v);
    assert(l2.len() == l1.len() + 4);
    assert forall|j: int| 0 <= j < a + 1 implies l2[j] == l1[j] by {
        assert(l2[j] == l1.subrange(0, a + 1)[j]);
    }
    assert(l2[a + 1] == nb[0]);
    assert(l2[a + 2] == nb[1]);
    assert(l2[a + 3] == nb[2]);
    let t = crate::text::spec_trim(l1[i]);
    if i == a {
        // The line at the section's opening brace: any other reading would
        // put the section scan's answer past this line.
        assert(t == "{"@ && in_apps && depth + 1 == apps_depth) by {
            if t == "{"@ {
                if !(in_apps && depth + 1 == apps_depth) {
                    lemma_apps_open_range(l1, i + 1, depth + 1, in_apps, apps_depth);
                }
            } else {
                let depth1 = if t == "}"@ {
                    depth - 1
                } else {
                    depth
                };
                let in_apps1 = if t == "}"@ {
                    in_apps && !(depth1 < apps_depth)
                } else {
                    in_apps
                };
                if crate::text::spec_starts_with(t, "\"apps\""@) {
                    lemma_apps_open_range(l1, i + 1, depth1, true, depth1 + 1);
                } else {
                    lemma_apps_open_range(l1, i + 1, depth1, in_apps1, apps_depth);
                }
            }
        }
        assert(t[0] == '{');
        assert(crate::localconfig::spec_parse_quoted_key(l1[a]) is None) by {
            assert(t.len() > 0 && t[0] != '"');
        }
        assert(crate::localconfig::spec_parse_key_value(l1[a]) is None) by {
            assert(t.len() > 0 && t[0] != '"');
        }
        assert(!crate::localconfig::spec_is_options_line(l1[a]));
        assert(!crate::text::spec_starts_with(t, "\"apps\""@)) by {
            if crate::text::spec_starts_with(t, "\"apps\""@) {
                assert(t.len() >= 6);
            }
        }
        let d1 = depth + 1;
        assert(spec_find_point(l1, a, depth, in_apps, apps_depth, false, target_depth, false, id)
            == spec_find_point(l1, a + 1, d1, in_apps, apps_depth, false, target_depth, false, id));
        assert(spec_find_point(l2, a, depth, in_apps, apps_depth, false, target_depth, false, id)
            == spec_find_point(l2, a + 1, d1, in_apps, apps_depth, false, target_depth, false, id));
        // The block-key line: the scan enters the new block.
        assert forall|j: int|
            0 <= j < "\t\t\t\t\t"@.len() implies crate::text::spec_is_space(
            #[trigger] "\t\t\t\t\t"@[j]) by {}
        assert(nb[0] =~= "\t\t\t\t\t"@ + "\""@ + id + "\""@) by {
            assert(nb[0] == "\t\t\t\t\t\""@ + id + "\""@);
        }
        crate::localconfig::lemma_parse_key_line("\t\t\t\t\t"@, id);
        let tk = crate::text::spec_trim(l2[a + 1]);
        assert(crate::localconfig::spec_parse_quoted_key(l2[a + 1]) == Some(id));
        assert(!crate::localconfig::spec_is_options_line(l2[a + 1])) by {
            assert(crate::localconfig::spec_parse_key_value(l2[a + 1]) is None);
        }
        assert(spec_find_point(l2, a + 1, d1, in_apps, apps_depth, false, target_depth, false, id)
            == spec_find_point(l2, a + 2, d1, in_apps, apps_depth, true, d1 + 1, true, id));
        // The block's opening brace.
        assert(nb[1] =~= "\t\t\t\t\t"@ + "{"@) by {
            assert(nb[1] == "\t\t\t\t\t{"@);
        }
        crate::localconfig::lemma_parse_open_brace_line("\t\t\t\t\t"@);
        assert(crate::text::spec_trim(l2[a + 2]) == "{"@);
        assert(!crate::localconfig::spec_is_options_line(l2[a + 2])) by {
            assert(crate::localconfig::spec_parse_key_value(l2[a + 2]) is None);
        }
        assert(spec_find_point(l2, a + 2, d1, in_apps, apps_depth, true, d1 + 1, true, id)
            == spec_find_point(l2, a + 3, d1 + 1, in_apps, apps_depth, true, d1 + 1, true, id));
        // The field line: the scan returns here.
        assert forall|j: int|
            0 <= j < "\t\t\t\t\t\t"@.len() implies crate::text::spec_is_space(
            #[trigger] "\t\t\t\t\t\t"@[j]) by {}
        assert(nb[2] =~= crate::localconfig::spec_field_line("\t\t\t\t\t\t"@, v)) by {
            reveal_strlit("\t\t\t\t\t\t\"LaunchOptions\"\t\t\"");
            reveal_strlit("\"LaunchOptions\"\t\t\"");
            assert(nb[2] =~= "\t\t\t\t\t\t"@ + "\"LaunchOptions\"\t\t\""@
                + crate::localconfig::spec_escape_vdf(v) + "\""@);
        }
        crate::localconfig::lemma_parse_field_line("\t\t\t\t\t\t"@, v);
        assert(spec_find_point(l2, a + 3, d1 + 1, in_apps, apps_depth, true, d1 + 1, true, id)
            == PatchPoint::Field(a + 3));
    } else {
        // A line of the shared prefix: both scans step identically, and the
        // target cannot be hit here, else no new block would be asked for.
        assert(l2[i] == l1[i]);
        assert(!(t == "{"@ && in_apps && depth + 1 == apps_depth)) by {
            if t == "{"@ && in_apps && depth + 1 == apps_depth {
                assert(spec_apps_open(l1, i, depth, in_apps, apps_depth) == Some(i));
            }
        }
        let depth1 = if t == "{"@ {
            depth + 1
        } else if t == "}"@ {
            depth - 1
        } else {
            depth
        };
        let in_apps1 = if t == "}"@ {
            in_apps && !(depth1 < apps_depth)
        } else {
            in_apps
        };
        let in_apps2 = if crate::text::spec_starts_with(t, "\"apps\""@) {
            true
        } else {
            in_apps1
        };
        let apps_depth2 = if crate::text::spec_starts_with(t, "\"apps\""@) {
            depth1 + 1
        } else {
            apps_depth
        };
        // The applications-section scan steps to the same state.
        assert(spec_apps_open(l1, i, depth, in_apps, apps_depth) == spec_apps_open(
            l1,
            i + 1,
            depth1,
            in_apps2,
            apps_depth2,
        )) by {
            if t == "{"@ {
                assert(!crate::text::spec_starts_with(t, "\"apps\""@)) by {
                    if crate::text::spec_starts_with(t, "\"apps\""@) {
                        assert(t.len() >= 6);
                    }
                }
            }
        }
        let hit = in_apps2 && crate::localconfig::spec_parse_quoted_key(l1[i]) == Some(id);
        assert(!hit) by {
            if hit {
                if crate::localconfig::spec_is_options_line(l1[i]) {
                    assert(spec_find_point(
                        l1,
                        i,
                        depth,
                        in_apps,
                        apps_depth,
                        false,
                        target_depth,
                        false,
                        id,
                    ) == PatchPoint::Field(i));
                } else {
                    lemma_seen_no_new_block(
                        l1,
                        i + 1,
                        depth1,
                        in_apps2,
                        apps_depth2,
                        true,
                        depth1 + 1,
                        id,
                    );
                }
            }
        }
        assert(spec_find_point(l1, i, depth, in_apps, apps_depth, false, target_depth, false, id)
            == spec_find_point(
            l1,
            i + 1,
            depth1,
            in_apps2,
            apps_depth2,
            false,
            target_depth,
            false,
            id,
        ));
        assert(spec_find_point(l2, i, depth, in_apps, apps_depth, false, target_depth, false, id)
            == spec_find_point(
            l2,
            i + 1,
            depth1,
            in_apps2,
            apps_depth2,
            false,
            target_depth,
            false,
            id,
        ));
        lemma_scan_new_block(
            l1,
            l2,
            i + 1,
            depth1,
            in_apps2,
            apps_depth2,
            target_depth,
            id,
            v,
            a,
        );
    }
}

/// Asking for a new block names exactly the applications-section scan's
/// answer.
proof fn lemma_new_block_from_apps_open(
    lines: Seq<Seq<char>>,
    i: int,
    depth: int,
    in_apps: bool,
    apps_depth: int,
    in_target: bool,
    target_depth: int,
    target_seen: bool,
    id: Seq<char>,
    a: int,
)
    requires
        spec_find_point(lines, i, depth, in_apps, apps_depth, in_target, target_depth, target_seen, id)
            == PatchPoint::NewBlockAfter(a),
    ensures
        spec_apps_open(lines, 0, 0, false, 0) == Some(a),
    decreases lines.len() - i,
{
    if i >= 0 && i < lines.len() {
        let t = crate::text::spec_trim(lines[i]);
        if !(in_target && t == "}"@ && depth == target_depth) {
            let depth1 = if t == "{"@ {
                depth + 1
            } else if t == "}"@ {
                depth - 1
            } else {
                depth
            };
            let in_apps1 = if t == "}"@ {
                in_apps && !(depth1 < apps_depth)
            } else {
                in_apps
            };
            let in_target1 = if t == "}"@ {
                in_target && !(depth1 < target_depth)
            } else {
                in_target
            };
            let in_apps2 = if crate::text::spec_starts_with(t, "\"apps\""@) {
                true
            } else {
                in_apps1
            };
            let apps_depth2 = if crate::text::spec_starts_with(t, "\"apps\""@) {
                depth1 + 1
            } else {
                apps_depth
            };
            let hit = in_apps2 && !in_target1 && crate::localconfig::spec_parse_quoted_key(
                lines[i],
            ) == Some(id);
            let in_target2 = if hit {
                true
            } else {
                in_target1
            };
            let target_depth2 = if hit {
                depth1 + 1
            } else {
                target_depth
            };
            let target_seen2 = target_seen || hit;
            if !(in_target2 && crate::localconfig::spec_is_options_line(lines[i])) {
                lemma_new_block_from_apps_open(
                    lines,
                    i + 1,
                    depth1,
                    in_apps2,
                    apps_depth2,
                    in_target2,
                    target_depth2,
                    target_seen2,
                    id,
                    a,
                );
            }
        }
    }
}

/// Idempotence of the preference patch: writing the same launch options for
/// the same application twice yields, after the second application, the very
/// document the first produced.  A value carrying a newline would break the
/// document's line structure and is left out.
pub proof fn lemma_set_options_idempotent(content: Seq<char>, app_id: u32, v: Seq<char>)
    requires
        crate::text::spec_no_nl(v),
    ensures
        crate::localconfig::spec_set_options(
            crate::localconfig::spec_set_options(content, crate::text::spec_dec(app_id as nat), Some(v)),
            crate::text::spec_dec(app_id as nat),
            Some(v),
        ) == crate::localconfig::spec_set_options(content, crate::text::spec_dec(app_id as nat), Some(v)),
{
    reveal_strlit("\t\t\t\t\t\t");
    reveal_strlit("\t");
    let id = crate::text::spec_dec(app_id as nat);
    crate::text::lemma_spec_dec_digits(app_id as nat);
    let lv = crate::text::spec_split_lines(content);
    crate::text::lemma_split_lines_no_nl(content);
    crate::text::lemma_split_lines_nonempty(content);
    let l1 = spec_patch_lines(lv, id, Some(v));
    let d1 = crate::text::spec_join_lines(l1);
    assert(crate::localconfig::spec_set_options(content, id, Some(v)) == d1);
    lemma_find_point_range(lv, 0, 0, false, 0, false, 0, false, id);
    match spec_patch_point(lv, id) {
        PatchPoint::Field(f) => {
            let indent = crate::localconfig::spec_line_indent(lv[f]);
            crate::text::lemma_trim_start_idx_bounds(lv[f]);
            assert forall|j: int|
                0 <= j < indent.len() implies crate::text::spec_is_space(
                #[trigger] indent[j]) by {
                assert(indent[j] == lv[f][j]);
            }
            let fl = crate::localconfig::spec_field_line(indent, v);
            crate::localconfig::lemma_parse_field_line(indent, v);
            assert(l1 == lv.subrange(0, f) + seq![fl] + lv.subrange(f + 1, lv.len() as int));
            assert(l1.len() == lv.len());
            assert forall|j: int| 0 <= j < f implies l1[j] == lv[j] by {
                assert(l1[j] == lv.subrange(0, f)[j]);
            }
            assert(l1[f] == fl);
            assert forall|j: int| f < j < l1.len() implies l1[j] == lv[j] by {
                assert(l1[j] == lv.subrange(f + 1, lv.len() as int)[j - f - 1]);
            }
            // The patched lines stay newline-free, so the join splits back.
            assert(crate::text::spec_no_nl(lv[f]));
            assert(crate::text::spec_no_nl(indent)) by {
                assert forall|j: int| 0 <= j < indent.len() implies #[trigger] indent[j]
                    != '\n' by {
                    assert(indent[j] == lv[f][j]);
                }
            }
            crate::localconfig::lemma_field_line_no_nl(indent, v);
            assert forall|k: int|
                0 <= k < l1.len() implies crate::text::spec_no_nl(#[trigger] l1[k]) by {
                if k != f {
                    assert(l1[k] == lv[k]);
                    assert(crate::text::spec_no_nl(lv[k]));
                }
            }
            crate::text::lemma_join_then_split(l1);
            lemma_scan_replaced_line(lv, l1, 0, 0, false, 0, false, 0, false, id, f);
            assert(spec_patch_point(l1, id) == PatchPoint::Field(f));
            let l2 = spec_patch_lines(l1, id, Some(v));
            assert(crate::localconfig::spec_line_indent(l1[f]) == indent);
            assert(l2 == l1.subrange(0, f) + seq![fl] + l1.subrange(f + 1, l1.len() as int));
            assert(l2 =~= l1);
            assert(crate::localconfig::spec_set_options(d1, id, Some(v)) == crate::text::spec_join_lines(
                l2,
            ));
        },
        PatchPoint::CloseBrace(c) => {
            let indent_c = crate::localconfig::spec_line_indent(lv[c]);
            crate::text::lemma_trim_start_idx_bounds(lv[c]);
            let indent = indent_c + "\t"@;
            assert forall|j: int|
                0 <= j < indent.len() implies crate::text::spec_is_space(
                #[trigger] indent[j]) by {
                if j < indent_c.len() {
                    assert(indent[j] == indent_c[j]);
                    assert(indent_c[j] == lv[c][j]);
                } else {
                    assert(indent[j] == '\t');
                }
            }
            let fl = crate::localconfig::spec_field_line(indent, v);
            crate::localconfig::lemma_parse_field_line(indent, v);
            assert(l1 == lv.subrange(0, c) + seq![fl] + lv.subrange(c, lv.len() as int));
            assert(l1.len() == lv.len() + 1);
            assert forall|j: int| 0 <= j < c implies l1[j] == lv[j] by {
                assert(l1[j] == lv.subrange(0, c)[j]);
            }
            assert(l1[c] == fl);
            assert forall|j: int| c < j < l1.len() implies l1[j] == lv[j - 1] by {
                assert(l1[j] == lv.subrange(c, lv.len() as int)[j - c - 1]);
            }
            assert(crate::text::spec_no_nl(indent)) by {
                assert forall|j: int| 0 <= j < indent.len() implies #[trigger] indent[j]
                    != '\n' by {
                    if j < indent_c.len() {
                        assert(indent[j] == indent_c[j]);
                        assert(indent_c[j] == lv[c][j]);
                        assert(crate::text::spec_no_nl(lv[c]));
                    } else {
                        assert(indent[j] == '\t');
                    }
                }
            }
            crate::localconfig::lemma_field_line_no_nl(indent, v);
            assert forall|k: int|
                0 <= k < l1.len() implies crate::text::spec_no_nl(#[trigger] l1[k]) by {
                if k < c {
                    assert(l1[k] == lv[k]);
                    assert(crate::text::spec_no_nl(lv[k]));
                } else if k > c {
                    assert(l1[k] == lv[k - 1]);
                    assert(crate::text::spec_no_nl(lv[k - 1]));
                }
            }
            crate::text::lemma_join_then_split(l1);
            lemma_scan_replaced_line(lv, l1, 0, 0, false, 0, false, 0, false, id, c);
            assert(spec_patch_point(l1, id) == PatchPoint::Field(c));
            let l2 = spec_patch_lines(l1, id, Some(v));
            assert(crate::localconfig::spec_line_indent(l1[c]) == indent);
            assert(l2 == l1.subrange(0, c) + seq![fl] + l1.subrange(c + 1, l1.len() as int));
            assert(l2 =~= l1);
            assert(crate::localconfig::spec_set_options(d1, id, Some(v)) == crate::text::spec_join_lines(
                l2,
            ));
        },
        PatchPoint::NewBlockAfter(a) => {
            let nb = crate::localconfig::spec_new_block(id, v);
            lemma_new_block_from_apps_open(lv, 0, 0, false, 0, false, 0, false, id, a);
            assert(l1 == lv.subrange(0, a + 1) + nb + lv.subrange(a + 1, lv.len() as int));
            assert(l1.len() == lv.len() + 4);
            crate::localconfig::lemma_new_block_no_nl(id, v);
            assert forall|k: int|
                0 <= k < l1.len() implies crate::text::spec_no_nl(#[trigger] l1[k]) by {
                if k < a + 1 {
                    assert(l1[k] == lv.subrange(0, a + 1)[k]);
                    assert(crate::text::spec_no_nl(lv[k]));
                } else if k < a + 5 {
                    assert(l1[k] == nb[k - a - 1]);
                    assert(crate::text::spec_no_nl(nb[k - a - 1]));
                } else {
                    assert(l1[k] == lv.subrange(a + 1, lv.len() as int)[k - a - 5]);
                    assert(crate::text::spec_no_nl(lv[k - 4]));
                }
            }
            crate::text::lemma_join_then_split(l1);
            lemma_scan_new_block(lv, l1, 0, 0, false, 0, 0, id, v, a);
            assert(spec_patch_point(l1, id) == PatchPoint::Field(a + 3));
            let l2 = spec_patch_lines(l1, id, Some(v));
            assert(l1[a + 3] == nb[2]);
            assert(nb[2] =~= crate::localconfig::spec_field_line("\t\t\t\t\t\t"@, v)) by {
                reveal_strlit("\t\t\t\t\t\t\"LaunchOptions\"\t\t\"");
                reveal_strlit("\"LaunchOptions\"\t\t\"");
                reveal_strlit("\"");
                assert(nb[2] =~= "\t\t\t\t\t\t"@ + "\"LaunchOptions\"\t\t\""@
                    + crate::localconfig::spec_escape_vdf(v) + "\""@);
            }
            assert forall|j: int|
                0 <= j < "\t\t\t\t\t\t"@.len() implies crate::text::spec_is_space(
                #[trigger] "\t\t\t\t\t\t"@[j]) by {}
            crate::localconfig::lemma_parse_field_line("\t\t\t\t\t\t"@, v);
            assert(crate::localconfig::spec_line_indent(l1[a + 3]) == "\t\t\t\t\t\t"@);
            assert(l2 == l1.subrange(0, a + 3) + seq![
                crate::localconfig::spec_field_line("\t\t\t\t\t\t"@, v),
            ] + l1.subrange(a + 4, l1.len() as int));
            assert(l2 =~= l1);
            assert(crate::localconfig::spec_set_options(d1, id, Some(v)) == crate::text::spec_join_lines(
                l2,
            ));
        },
        PatchPoint::Nowhere => {
            assert(l1 == lv);
            crate::text::lemma_join_split_lines(content);
            assert(d1 == content);
        },
    }
}

} // verus!
