//! Installed titles: scanning per-title manifest records, extracting library
//! locations, and assembling the deduplicated, name-sorted title list.

use core::cmp::Ordering;
use vstd::prelude::*;

use crate::localconfig::{parse_key_value, spec_parse_key_value};
use crate::locator::{lemma_lex_cmp_dual, lex_cmp, spec_lex_cmp};
use crate::text::{
    parse_u32, spec_all_digits, spec_digits_val, spec_lower, spec_split_lines, split_lines,
    str_eq, to_lowercase,
};

verus! {

/// An installed title.
#[derive(Debug, Clone)]
pub struct InstalledGame {
    pub app_id: u32,
    pub name: String,
    pub install_dir: String,
}

/// Parse a key/value record line; both parts must be present.
pub fn parse_vdf_key_value<'a>(line: &'a str) -> (r: Option<(&'a str, String)>)
    ensures
        match r {
            Some(kv) => spec_parse_key_value(line@) == Some((kv.0@, kv.1@)),
            None => spec_parse_key_value(line@) is None,
        },
{
    parse_key_value(line)
}

/// The quoted `path` values of a library-locations record, in order.
pub open spec fn spec_library_paths(lines: Seq<Seq<char>>) -> Seq<Seq<char>>
    decreases lines.len(),
{
    if lines.len() == 0 {
        Seq::empty()
    } else {
        let rest = spec_library_paths(lines.drop_last());
        match spec_parse_key_value(lines.last()) {
            Some(kv) => if kv.0 == "path"@ {
                rest.push(kv.1)
            } else {
                rest
            },
            None => rest,
        }
    }
}

/// Scan a library-locations record for its `path` entries.
pub fn extract_library_paths(content: &str) -> (r: Vec<String>)
    ensures
        r.deep_view() == spec_library_paths(spec_split_lines(content@)),
{
    let lines = split_lines(content);
    let ghost ls = lines.deep_view();
    let n: usize = lines.len();
    let mut out: Vec<String> = Vec::new();
    let mut i: usize = 0;
    proof {
        assert(ls.subrange(0, 0) =~= Seq::<Seq<char>>::empty());
        assert(out.deep_view() =~= spec_library_paths(ls.subrange(0, 0)));
    }
    while i < n
        invariant
            ls == lines.deep_view(),
            ls.len() == n,
            n == lines@.len(),
            i <= n,
            out.deep_view() == spec_library_paths(ls.subrange(0, i as int)),
        decreases n - i,
    {
        proof {
            assert(ls[i as int] == lines@[i as int]@);
            assert(ls.subrange(0, i + 1).drop_last() =~= ls.subrange(0, i as int));
            assert(ls.subrange(0, i + 1).last() == ls[i as int]);
        }
        match parse_vdf_key_value(lines[i].as_str()) {
            Some(kv) => {
                if str_eq(kv.0, "path") {
                    let ghost ov = out.deep_view();
                    out.push(kv.1);
                    proof {
                        assert(out.deep_view() =~= ov.push(
                            (spec_parse_key_value(ls[i as int])->0).1,
                        ));
                    }
                }
            },
            None => {},
        }
        i = i + 1;
    }
    proof {
        assert(ls.subrange(0, n as int) =~= ls);
    }
    out
}

/// A bare numeric string's value as a `u32`, where it fits.
pub open spec fn spec_u32_of(k: Seq<char>) -> Option<u32> {
    if k.len() > 0 && spec_all_digits(k) && spec_digits_val(k) <= u32::MAX {
        Some(spec_digits_val(k) as u32)
    } else {
        None
    }
}

/// The manifest scan: the last `appid`, `name` and `installdir` record of
/// the file, keys compared case-insensitively.
pub open spec fn spec_manifest_scan(lines: Seq<Seq<char>>) -> (Option<u32>, Option<Seq<char>>, Option<Seq<char>>)
    decreases lines.len(),
{
    if lines.len() == 0 {
        (None, None, None)
    } else {
        let rest = spec_manifest_scan(lines.drop_last());
        match spec_parse_key_value(lines.last()) {
            Some(kv) => {
                let lk = spec_lower(kv.0);
                if lk == "appid"@ {
                    (spec_u32_of(kv.1), rest.1, rest.2)
                } else if lk == "name"@ {
                    (rest.0, Some(kv.1), rest.2)
                } else if lk == "installdir"@ {
                    (rest.0, rest.1, Some(kv.1))
                } else {
                    rest
                }
            },
            None => rest,
        }
    }
}

/// The title a manifest describes: present exactly when the scan found an
/// identifier and a name; a missing install directory becomes empty.
pub open spec fn spec_manifest_game(content: Seq<char>) -> Option<(u32, Seq<char>, Seq<char>)> {
    let t = spec_manifest_scan(spec_split_lines(content));
    match (t.0, t.1) {
        (Some(id), Some(name)) => Some(
            (
                id,
                name,
                match t.2 {
                    Some(d) => d,
                    None => Seq::empty(),
                },
            ),
        ),
        _ => None,
    }
}

/// Parse one per-title manifest.
pub fn parse_appmanifest(content: &str) -> (r: Option<InstalledGame>)
    ensures
        match r {
            Some(g) => spec_manifest_game(content@) == Some((g.app_id, g.name@, g.install_dir@)),
            None => spec_manifest_game(content@) is None,
        },
{
    let lines = split_lines(content);
    let ghost ls = lines.deep_view();
    let n: usize = lines.len();
    let mut app_id: Option<u32> = None;
    let mut name: Option<String> = None;
    let mut install_dir: Option<String> = None;
    let mut i: usize = 0;
    proof {
        assert(ls.subrange(0, 0) =~= Seq::<Seq<char>>::empty());
    }
    while i < n
        invariant
            ls == lines.deep_view(),
            ls.len() == n,
            n == lines@.len(),
            i <= n,
            ({
                let t = spec_manifest_scan(ls.subrange(0, i as int));
                &&& (match (app_id, t.0) {
                    (Some(a), Some(b)) => a == b,
                    (None, None) => true,
                    _ => false,
                })
                &&& (match (&name, t.1) {
                    (Some(a), Some(b)) => a@ == b,
                    (None, None) => true,
                    _ => false,
                })
                &&& (match (&install_dir, t.2) {
                    (Some(a), Some(b)) => a@ == b,
                    (None, None) => true,
                    _ => false,
                })
            }),
        decreases n - i,
    {
        proof {
            assert(ls[i as int] == lines@[i as int]@);
            assert(ls.subrange(0, i + 1).drop_last() =~= ls.subrange(0, i as int));
            assert(ls.subrange(0, i + 1).last() == ls[i as int]);
        }
        match parse_vdf_key_value(lines[i].as_str()) {
            Some(kv) => {
                let lk = to_lowercase(kv.0);
                if str_eq(lk.as_str(), "appid") {
                    app_id = parse_u32(kv.1.as_str());
                } else if str_eq(lk.as_str(), "name") {
                    name = Some(kv.1);
                } else if str_eq(lk.as_str(), "installdir") {
                    install_dir = Some(kv.1);
                }
            },
            None => {},
        }
        i = i + 1;
    }
    proof {
        assert(ls.subrange(0, n as int) =~= ls);
    }
    match (app_id, name) {
        (Some(id), Some(nm)) => {
            let dir = match install_dir {
                Some(d) => d,
                None => String::new(),
            };
            Some(InstalledGame { app_id: id, name: nm, install_dir: dir })
        },
        _ => None,
    }
}

/// The parsed titles of a set of manifest files, in file order.
pub open spec fn spec_games_of(ms: Seq<Seq<char>>) -> Seq<(u32, Seq<char>, Seq<char>)>
    decreases ms.len(),
{
    if ms.len() == 0 {
        Seq::empty()
    } else {
        let rest = spec_games_of(ms.drop_last());
        match spec_manifest_game(ms.last()) {
            Some(t) => rest.push(t),
            None => rest,
        }
    }
}

/// The triple a title value carries.
pub open spec fn spec_game_triple(g: InstalledGame) -> (u32, Seq<char>, Seq<char>) {
    (g.app_id, g.name@, g.install_dir@)
}

/// `g` is the first parsed title carrying its identifier.
pub open spec fn spec_is_first_game(
    gs: Seq<(u32, Seq<char>, Seq<char>)>,
    g: InstalledGame,
) -> bool {
    exists|i: int|
        0 <= i < gs.len() && #[trigger] gs[i] == spec_game_triple(g) && (forall|j: int|
            0 <= j < i ==> (#[trigger] gs[j]).0 != g.app_id)
}

/// Case-folded name order on titles.
pub open spec fn spec_game_leq(a: Seq<char>, b: Seq<char>) -> bool {
    spec_lex_cmp(spec_lower(a), spec_lower(b)) != Ordering::Greater
}

/// Each adjacent pair is in case-folded name order.
pub open spec fn spec_sorted_games(s: Seq<InstalledGame>) -> bool {
    forall|k: int| 0 <= k < s.len() - 1 ==> spec_game_leq(#[trigger] s[k].name@, s[k + 1].name@)
}

/// Whether some collected title already carries this identifier.
fn has_id(acc: &Vec<InstalledGame>, app_id: u32) -> (r: bool)
    ensures
        r == exists|k: int| 0 <= k < acc@.len() && (#[trigger] acc@[k]).app_id == app_id,
{
    let n: usize = acc.len();
    let mut k: usize = 0;
    while k < n
        invariant
            n == acc@.len(),
            k <= n,
            forall|m: int| 0 <= m < k ==> (#[trigger] acc@[m]).app_id != app_id,
        decreases n - k,
    {
        if acc[k].app_id == app_id {
            return true;
        }
        k = k + 1;
    }
    false
}

/// Case-folded strictly-greater test on names.
fn name_gt(a: &str, b: &str) -> (r: bool)
    ensures
        r == (spec_lex_cmp(spec_lower(a@), spec_lower(b@)) == Ordering::Greater),
{
    let la = to_lowercase(a);
    let lb = to_lowercase(b);
    matches!(lex_cmp(la.as_str(), lb.as_str()), Ordering::Greater)
}

/// Insert a title into a name-sorted vector, keeping it sorted.
fn insert_sorted_game(out: &mut Vec<InstalledGame>, x: InstalledGame)
    requires
        spec_sorted_games(old(out)@),
    ensures
        spec_sorted_games(final(out)@),
        exists|j: int| 0 <= j <= old(out)@.len() && final(out)@ == old(out)@.insert(j, x),
{
    let n: usize = out.len();
    let mut j: usize = n;
    while j > 0 && name_gt(out[j - 1].name.as_str(), x.name.as_str())
        invariant
            n == out@.len(),
            out == old(out),
            j <= n,
            forall|k: int|
                j <= k < n ==> spec_lex_cmp(spec_lower((#[trigger] out@[k]).name@), spec_lower(
                    x.name@,
                )) == Ordering::Greater,
        decreases j,
    {
        j = j - 1;
    }
    let ghost oldv = out@;
    let ghost gx = x;
    out.insert(j, x);
    proof {
        assert(out@ =~= oldv.insert(j as int, gx));
        assert forall|k: int|
            0 <= k < out@.len() - 1 implies spec_game_leq(
            (#[trigger] out@[k]).name@,
            out@[k + 1].name@,
        ) by {
            if k + 1 < j {
                assert(out@[k] == oldv[k]);
                assert(out@[k + 1] == oldv[k + 1]);
                assert(spec_game_leq(oldv[k].name@, oldv[k + 1].name@));
            } else if k + 1 == j {
                assert(out@[k] == oldv[k]);
                assert(out@[k + 1] == gx);
                assert(!(spec_lex_cmp(spec_lower(oldv[j - 1].name@), spec_lower(gx.name@))
                    == Ordering::Greater));
            } else if k == j {
                assert(out@[k] == gx);
                assert(out@[k + 1] == oldv[k]);
                assert(spec_lex_cmp(spec_lower(oldv[k].name@), spec_lower(gx.name@))
                    == Ordering::Greater);
                lemma_lex_cmp_dual(spec_lower(gx.name@), spec_lower(oldv[k].name@));
            } else {
                assert(out@[k] == oldv[k - 1]);
                assert(out@[k + 1] == oldv[k]);
                assert(spec_game_leq(oldv[k - 1].name@, oldv[k].name@));
            }
        }
        assert(0 <= j as int <= oldv.len() && out@ == oldv.insert(j as int, gx));
    }
}

/// Identifiers occur at most once.
pub open spec fn spec_ids_distinct(s: Seq<InstalledGame>) -> bool {
    forall|k1: int, k2: int|
        0 <= k1 < k2 < s.len() ==> (#[trigger] s[k1]).app_id != (#[trigger] s[k2]).app_id
}

/// Every held title is the first parsed one of its identifier.
pub open spec fn spec_all_first_games(
    gs: Seq<(u32, Seq<char>, Seq<char>)>,
    s: Seq<InstalledGame>,
) -> bool {
    forall|k: int| 0 <= k < s.len() ==> spec_is_first_game(gs, #[trigger] s[k])
}

/// Some held title carries this identifier.
pub open spec fn spec_id_held(s: Seq<InstalledGame>, id: u32) -> bool {
    exists|k: int| 0 <= k < s.len() && (#[trigger] s[k]).app_id == id
}

/// Every parsed identifier is held.
pub open spec fn spec_ids_covered(
    gs: Seq<(u32, Seq<char>, Seq<char>)>,
    s: Seq<InstalledGame>,
) -> bool {
    forall|q: int| #![trigger gs[q]] 0 <= q < gs.len() ==> spec_id_held(s, gs[q].0)
}

/// No identifier is shared between the two sets.
pub open spec fn spec_ids_disjoint(a: Seq<InstalledGame>, b: Seq<InstalledGame>) -> bool {
    forall|k1: int, k2: int|
        0 <= k1 < a.len() && 0 <= k2 < b.len() ==> (#[trigger] a[k1]).app_id != (
        #[trigger] b[k2]).app_id
}

/// Every parsed identifier is held by one of the two sets.
pub open spec fn spec_ids_covered2(
    gs: Seq<(u32, Seq<char>, Seq<char>)>,
    a: Seq<InstalledGame>,
    b: Seq<InstalledGame>,
) -> bool {
    forall|q: int|
        #![trigger gs[q]]
        0 <= q < gs.len() ==> spec_id_held(a, gs[q].0) || spec_id_held(b, gs[q].0)
}

/// Parse every manifest, keep the first title of each identifier, and sort
/// the result by case-folded name.
#[verifier::rlimit(80)]
pub fn collect_installed_games(manifests: &Vec<String>) -> (r: Vec<InstalledGame>)
    ensures
        spec_ids_distinct(r@),
        spec_all_first_games(spec_games_of(manifests.deep_view()), r@),
        spec_ids_covered(spec_games_of(manifests.deep_view()), r@),
        spec_sorted_games(r@),
{
    let ghost ms = manifests.deep_view();
    let n: usize = manifests.len();
    let mut acc: Vec<InstalledGame> = Vec::new();
    let mut i: usize = 0;
    proof {
        assert(ms.subrange(0, 0) =~= Seq::<Seq<char>>::empty());
        assert(spec_games_of(ms.subrange(0, 0)) =~= Seq::<(u32, Seq<char>, Seq<char>)>::empty());
    }
    while i < n
        invariant
            ms == manifests.deep_view(),
            ms.len() == n,
            n == manifests@.len(),
            i <= n,
            spec_ids_distinct(acc@),
            spec_all_first_games(spec_games_of(ms.subrange(0, i as int)), acc@),
            spec_ids_covered(spec_games_of(ms.subrange(0, i as int)), acc@),
        decreases n - i,
    {
        let ghost cur = spec_games_of(ms.subrange(0, i as int));
        let ghost cur1 = spec_games_of(ms.subrange(0, i + 1));
        proof {
            assert(ms.subrange(0, i + 1).drop_last() =~= ms.subrange(0, i as int));
            assert(ms.subrange(0, i + 1).last() == ms[i as int]);
            assert(ms[i as int] == manifests@[i as int]@);
        }
        match parse_appmanifest(manifests[i].as_str()) {
            Some(g) => {
                proof {
                    assert(cur1 =~= cur.push(spec_game_triple(g)));
                }
                let present = has_id(&acc, g.app_id);
                proof {
                    assert(present == spec_id_held(acc@, g.app_id));
                }
                if !present {
                    let ghost accv = acc@;
                    let ghost gg = g;
                    acc.push(g);
                    proof {
                        assert(acc@ =~= accv.push(gg));
                        assert forall|k1: int, k2: int|
                            0 <= k1 < k2 < acc@.len() implies (#[trigger] acc@[k1]).app_id != (
                        #[trigger] acc@[k2]).app_id by {
                            if k2 == acc@.len() - 1 {
                                assert(acc@[k1] == accv[k1]);
                                assert(!(accv[k1].app_id == gg.app_id));
                            } else {
                                assert(acc@[k1] == accv[k1]);
                                assert(acc@[k2] == accv[k2]);
                            }
                        }
                        assert forall|k: int|
                            0 <= k < acc@.len() implies spec_is_first_game(
                            cur1,
                            #[trigger] acc@[k],
                        ) by {
                            if k < accv.len() {
                                assert(spec_is_first_game(cur, accv[k]));
                                let i0 = choose|q: int|
                                    0 <= q < cur.len() && #[trigger] cur[q] == spec_game_triple(
                                        accv[k],
                                    ) && (forall|j: int|
                                        0 <= j < q ==> (#[trigger] cur[j]).0 != accv[k].app_id);
                                assert(cur1[i0] == spec_game_triple(accv[k]));
                                assert(spec_is_first_game(cur1, acc@[k]));
                            } else {
                                let i0: int = cur.len() as int;
                                assert(cur1[i0] == spec_game_triple(gg));
                                assert forall|j: int|
                                    0 <= j < i0 implies (#[trigger] cur1[j]).0 != gg.app_id by {
                                    if cur1[j].0 == gg.app_id {
                                        assert(cur[j].0 == gg.app_id);
                                        assert(spec_ids_covered(cur, accv));
                                        assert(spec_id_held(accv, cur[j].0));
                                        let k2 = choose|k: int|
                                            0 <= k < accv.len() && (#[trigger] accv[k]).app_id
                                                == cur[j].0;
                                        assert(accv[k2].app_id == gg.app_id);
                                    }
                                }
                                assert(spec_is_first_game(cur1, gg));
                            }
                        }
                        assert(spec_all_first_games(cur1, acc@));
                        assert forall|q: int|
                            0 <= q < cur1.len() implies spec_id_held(acc@, (
                        #[trigger] cur1[q]).0) by {
                            if q < cur.len() {
                                assert(cur1[q] == cur[q]);
                                assert(spec_ids_covered(cur, accv));
                                assert(spec_id_held(accv, cur[q].0));
                                let k0 = choose|k: int|
                                    0 <= k < accv.len() && (#[trigger] accv[k]).app_id
                                        == cur[q].0;
                                assert(acc@[k0].app_id == cur1[q].0);
                            } else {
                                assert(acc@[acc@.len() - 1].app_id == cur1[q].0);
                            }
                        }
                        assert(spec_ids_covered(cur1, acc@));
                    }
                } else {
                    proof {
                        assert forall|k: int|
                            0 <= k < acc@.len() implies spec_is_first_game(
                            cur1,
                            #[trigger] acc@[k],
                        ) by {
                            assert(spec_is_first_game(cur, acc@[k]));
                            let i0 = choose|q: int|
                                0 <= q < cur.len() && #[trigger] cur[q] == spec_game_triple(
                                    acc@[k],
                                ) && (forall|j: int|
                                    0 <= j < q ==> (#[trigger] cur[j]).0 != acc@[k].app_id);
                            assert(cur1[i0] == spec_game_triple(acc@[k]));
                        }
                        assert(spec_all_first_games(cur1, acc@));
                        assert forall|q: int|
                            0 <= q < cur1.len() implies spec_id_held(acc@, (
                        #[trigger] cur1[q]).0) by {
                            if q < cur.len() {
                                assert(cur1[q] == cur[q]);
                                assert(spec_ids_covered(cur, acc@));
                                assert(spec_id_held(acc@, cur[q].0));
                            } else {
                                assert(cur1[q] == spec_game_triple(g));
                                assert(spec_id_held(acc@, g.app_id));
                            }
                        }
                        assert(spec_ids_covered(cur1, acc@));
                    }
                }
            },
            None => {
                proof {
                    assert(cur1 =~= cur);
                    assert(spec_all_first_games(cur1, acc@));
                    assert(spec_ids_covered(cur1, acc@));
                }
            },
        }
        i = i + 1;
    }
    proof {
        assert(ms.subrange(0, n as int) =~= ms);
        let ghost gs0 = spec_games_of(ms);
        assert(spec_ids_covered(gs0, acc@));
        let empty_out: Seq<InstalledGame> = Seq::empty();
        assert forall|q: int|
            0 <= q < gs0.len() implies spec_id_held(acc@, (#[trigger] gs0[q]).0) || spec_id_held(
            empty_out,
            gs0[q].0,
        ) by {
            assert(spec_id_held(acc@, gs0[q].0));
        }
    }
    let mut acc = acc;
    let mut out: Vec<InstalledGame> = Vec::new();
    proof {
        assert(out@ =~= Seq::<InstalledGame>::empty());
        assert(spec_ids_covered2(spec_games_of(ms), acc@, out@));
    }
    while acc.len() > 0
        invariant
            ms == manifests.deep_view(),
            spec_sorted_games(out@),
            spec_all_first_games(spec_games_of(ms), out@),
            spec_ids_distinct(out@),
            spec_ids_disjoint(acc@, out@),
            spec_ids_distinct(acc@),
            spec_all_first_games(spec_games_of(ms), acc@),
            spec_ids_covered2(spec_games_of(ms), acc@, out@),
        decreases acc@.len(),
    {
        let ghost accv = acc@;
        let x = acc.pop().unwrap();
        let ghost outv = out@;
        insert_sorted_game(&mut out, x);
        proof {
            let gx = accv.last();
            assert(acc@ =~= accv.drop_last());
            let j = choose|j: int| 0 <= j <= outv.len() && out@ == outv.insert(j, gx);
            outv.insert_ensures(j, gx);
            assert forall|m: int| 0 <= m < outv.len() implies gx.app_id != (
            #[trigger] outv[m]).app_id by {
                assert(spec_ids_disjoint(accv, outv));
                assert(accv[accv.len() - 1].app_id != outv[m].app_id);
            }
            assert forall|k1: int, k2: int|
                0 <= k1 < k2 < out@.len() implies (#[trigger] out@[k1]).app_id != (
            #[trigger] out@[k2]).app_id by {
                if k1 == j {
                    assert(out@[k1] == gx);
                    assert(out@[k2] == outv[k2 - 1]);
                } else if k2 == j {
                    assert(out@[k2] == gx);
                    assert(out@[k1] == outv[k1]);
                } else {
                    let m1: int = if k1 < j { k1 } else { k1 - 1 };
                    let m2: int = if k2 < j { k2 } else { k2 - 1 };
                    assert(out@[k1] == outv[m1]);
                    assert(out@[k2] == outv[m2]);
                    assert(spec_ids_distinct(outv));
                    assert(outv[m1].app_id != outv[m2].app_id);
                }
            }
            assert(spec_ids_distinct(out@));
            assert forall|k: int|
                0 <= k < out@.len() implies spec_is_first_game(
                spec_games_of(ms),
                #[trigger] out@[k],
            ) by {
                if k == j {
                    assert(out@[k] == gx);
                    assert(spec_all_first_games(spec_games_of(ms), accv));
                    assert(spec_is_first_game(spec_games_of(ms), accv[accv.len() - 1]));
                } else if k < j {
                    assert(out@[k] == outv[k]);
                    assert(spec_is_first_game(spec_games_of(ms), outv[k]));
                } else {
                    assert(out@[k] == outv[k - 1]);
                    assert(spec_is_first_game(spec_games_of(ms), outv[k - 1]));
                }
            }
            assert(spec_all_first_games(spec_games_of(ms), out@));
            assert forall|k1: int, k2: int|
                0 <= k1 < acc@.len() && 0 <= k2 < out@.len() implies (
            #[trigger] acc@[k1]).app_id != (#[trigger] out@[k2]).app_id by {
                assert(acc@[k1] == accv[k1]);
                if k2 == j {
                    assert(out@[k2] == gx);
                    assert(spec_ids_distinct(accv));
                    assert(accv[k1].app_id != accv[accv.len() - 1].app_id);
                } else {
                    let m: int = if k2 < j { k2 } else { k2 - 1 };
                    assert(out@[k2] == outv[m]);
                    assert(spec_ids_disjoint(accv, outv));
                    assert(accv[k1].app_id != outv[m].app_id);
                }
            }
            assert(spec_ids_disjoint(acc@, out@));
            let ghost gs = spec_games_of(ms);
            assert forall|q: int|
                0 <= q < gs.len() implies spec_id_held(acc@, (#[trigger] gs[q]).0)
                || spec_id_held(out@, gs[q].0) by {
                assert(spec_ids_covered2(gs, accv, outv));
                assert(spec_id_held(accv, gs[q].0) || spec_id_held(outv, gs[q].0));
                if spec_id_held(accv, gs[q].0) {
                    let k0 = choose|k: int|
                        0 <= k < accv.len() && (#[trigger] accv[k]).app_id == gs[q].0;
                    if k0 < accv.len() - 1 {
                        assert(acc@[k0].app_id == gs[q].0);
                    } else {
                        assert(out@[j].app_id == gs[q].0);
                    }
                } else {
                    let k0 = choose|k: int|
                        0 <= k < outv.len() && (#[trigger] outv[k]).app_id == gs[q].0;
                    if k0 < j {
                        assert(out@[k0].app_id == gs[q].0);
                    } else {
                        assert(out@[k0 + 1].app_id == gs[q].0);
                    }
                }
            }
            assert(spec_ids_covered2(gs, acc@, out@));
        }
    }
    proof {
        let ghost gs = spec_games_of(ms);
        assert forall|q: int|
            0 <= q < gs.len() implies spec_id_held(out@, (#[trigger] gs[q]).0) by {
            assert(spec_ids_covered2(gs, acc@, out@));
            assert(spec_id_held(acc@, gs[q].0) || spec_id_held(out@, gs[q].0));
            if spec_id_held(acc@, gs[q].0) {
                let k0 = choose|k: int|
                    0 <= k < acc@.len() && (#[trigger] acc@[k]).app_id == gs[q].0;
                assert(false);
            }
        }
        assert(spec_ids_covered(gs, out@));
    }
    out
}

} // verus!
