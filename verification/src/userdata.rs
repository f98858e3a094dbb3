//! Paths and records of the per-user data tree.  The filesystem itself is
//! read by the caller; everything here builds paths and scans file contents.

use vstd::prelude::*;

use crate::text::{
    parse_u64, spec_all_digits, spec_dec, spec_digits_val, spec_split_lines, split_lines,
    str_eq, u64_to_string,
};

verus! {

/// The path of a user's preference document under a Steam root.
pub open spec fn spec_localconfig_path(root: Seq<char>, user_id: nat) -> Seq<char> {
    root + "/userdata/"@ + spec_dec(user_id) + "/config/localconfig.vdf"@
}

/// Build the path of a user's preference document.
pub fn get_localconfig_path(steam_root: &str, user_id: u64) -> (r: String)
    ensures
        r@ == spec_localconfig_path(steam_root@, user_id as nat),
{
    let mut p = steam_root.to_owned();
    p.append("/userdata/");
    let id = u64_to_string(user_id);
    p.append(id.as_str());
    p.append("/config/localconfig.vdf");
    p
}

/// The path of the login-records file under a Steam root.
pub open spec fn spec_login_users_path(root: Seq<char>) -> Seq<char> {
    root + "/config/loginusers.vdf"@
}

/// Build the path of the login-records file.
pub fn get_login_users_path(steam_root: &str) -> (r: String)
    ensures
        r@ == spec_login_users_path(steam_root@),
{
    let mut p = steam_root.to_owned();
    p.append("/config/loginusers.vdf");
    p
}

/// The numeric user identifiers among a set of directory names, zero (a
/// placeholder directory) excluded.
pub open spec fn spec_user_ids(names: Seq<Seq<char>>) -> Seq<u64>
    decreases names.len(),
{
    if names.len() == 0 {
        Seq::empty()
    } else {
        let rest = spec_user_ids(names.drop_last());
        let n = names.last();
        if n.len() > 0 && spec_all_digits(n) && spec_digits_val(n) <= u64::MAX
            && spec_digits_val(n) > 0 {
            rest.push(spec_digits_val(n) as u64)
        } else {
            rest
        }
    }
}

/// Filter directory names down to the numeric user identifiers they carry.
pub fn parse_user_ids(names: &Vec<String>) -> (r: Vec<u64>)
    ensures
        r@ == spec_user_ids(names.deep_view()),
{
    let mut out: Vec<u64> = Vec::new();
    let mut i: usize = 0;
    proof {
        assert(names.deep_view().subrange(0, 0) =~= Seq::<Seq<char>>::empty());
        assert(out@ =~= spec_user_ids(names.deep_view().subrange(0, 0)));
    }
    while i < names.len()
        invariant
            i <= names@.len(),
            names.deep_view().len() == names@.len(),
            out@ == spec_user_ids(names.deep_view().subrange(0, i as int)),
        decreases names@.len() - i,
    {
        proof {
            assert(names.deep_view()[i as int] == names@[i as int]@);
            assert(names.deep_view().subrange(0, i + 1).drop_last() =~= names.deep_view().subrange(
                0,
                i as int,
            ));
            assert(names.deep_view().subrange(0, i + 1).last() == names.deep_view()[i as int]);
        }
        match parse_u64(names[i].as_str()) {
            Some(v) => {
                if v > 0 {
                    out.push(v);
                }
            },
            None => {},
        }
        i = i + 1;
    }
    proof {
        assert(names.deep_view().subrange(0, names@.len() as int) =~= names.deep_view());
    }
    out
}

/// The base offset between a 64-bit account identifier and its 32-bit form.
pub open spec fn spec_account_id_base() -> nat {
    76561197960265728
}

/// One resolved user: the 32-bit account identifier and the display name.
#[derive(Debug, Clone)]
pub struct UserName {
    pub account_id: u64,
    pub name: String,
}

/// Derive the 32-bit account identifier from a 64-bit one; identifiers at or
/// below the base carry no account.
pub fn account_id_of(steam_id64: u64) -> (r: Option<u64>)
    ensures
        match r {
            Some(a) => steam_id64 > spec_account_id_base() && a == steam_id64
                - spec_account_id_base(),
            None => steam_id64 <= spec_account_id_base(),
        },
{
    let base: u64 = 76561197960265728;
    if steam_id64 > base {
        Some(steam_id64 - base)
    } else {
        None
    }
}

/// A standalone quoted key that looks like a 64-bit account identifier:
/// longer than ten characters, all digits, and fitting a `u64`.
pub open spec fn spec_id64_key(line: Seq<char>) -> Option<u64> {
    match crate::localconfig::spec_parse_quoted_key(line) {
        Some(k) => if k.len() > 10 && spec_all_digits(k) && spec_digits_val(k) <= u64::MAX {
            Some(spec_digits_val(k) as u64)
        } else {
            None
        },
        None => None,
    }
}

/// The login-records scan: a standalone long numeric key opens a user's
/// section; a later display-name record inside it yields the user, keyed by
/// the 32-bit account identifier, the most recent record winning.
pub open spec fn spec_user_names_scan(
    lines: Seq<Seq<char>>,
    i: int,
    cur: Option<u64>,
    acc: Map<u64, Seq<char>>,
) -> Map<u64, Seq<char>>
    decreases lines.len() - i,
{
    if i < 0 || i >= lines.len() {
        acc
    } else {
        let cur1 = match spec_id64_key(lines[i]) {
            Some(id) => Some(id),
            None => cur,
        };
        let acc1 = match crate::localconfig::spec_parse_key_value(lines[i]) {
            Some(kv) => if kv.0 == "PersonaName"@ && cur1 is Some && cur1->0
                > spec_account_id_base() {
                acc.insert((cur1->0 - spec_account_id_base()) as u64, kv.1)
            } else {
                acc
            },
            None => acc,
        };
        spec_user_names_scan(lines, i + 1, cur1, acc1)
    }
}

/// The display names a login-records file holds, by account identifier.
pub open spec fn spec_user_names(content: Seq<char>) -> Map<u64, Seq<char>> {
    spec_user_names_scan(spec_split_lines(content), 0, None, Map::<u64, Seq<char>>::empty())
}

/// Scan a login-records file for its users' display names.
pub fn parse_user_names(content: &str) -> (r: Vec<UserName>)
    ensures
        forall|k1: int, k2: int|
            0 <= k1 < k2 < r@.len() ==> (#[trigger] r@[k1]).account_id != (
            #[trigger] r@[k2]).account_id,
        names_map_of(r@) == spec_user_names(content@),
{
    let lines = split_lines(content);
    let ghost ls = lines.deep_view();
    let n: usize = lines.len();
    let mut out: Vec<UserName> = Vec::new();
    let mut cur: Option<u64> = None;
    let mut i: usize = 0;
    proof {
        assert(ls.subrange(0, 0) =~= Seq::<Seq<char>>::empty());
        assert(names_map_of(out@) =~= Map::<u64, Seq<char>>::empty());
    }
    while i < n
        invariant
            ls == lines.deep_view(),
            ls.len() == n,
            n == lines@.len(),
            i <= n,
            forall|k1: int, k2: int|
                0 <= k1 < k2 < out@.len() ==> (#[trigger] out@[k1]).account_id != (
                #[trigger] out@[k2]).account_id,
            spec_user_names_scan(ls, 0, None, Map::<u64, Seq<char>>::empty())
                == spec_user_names_scan(ls, i as int, cur, names_map_of(out@)),
        decreases n - i,
    {
        proof {
            assert(ls[i as int] == lines@[i as int]@);
        }
        let line = &lines[i];
        let id_key: Option<u64> = match crate::localconfig::parse_quoted_key(line.as_str()) {
            Some(k) => match parse_u64(k) {
                Some(v) => {
                    if k.unicode_len() > 10 {
                        Some(v)
                    } else {
                        None
                    }
                },
                None => None,
            },
            None => None,
        };
        let cur1: Option<u64> = match id_key {
            Some(id) => Some(id),
            None => cur,
        };
        proof {
            assert(match spec_id64_key(ls[i as int]) {
                Some(id) => cur1 == Some(id),
                None => cur1 == cur,
            });
        }
        match crate::localconfig::parse_key_value(line.as_str()) {
            Some(kv) => {
                if str_eq(kv.0, "PersonaName") {
                    match cur1 {
                        Some(id64) => {
                            match account_id_of(id64) {
                                Some(account_id) => {
                                    let ghost outv = out@;
                                    upsert_name(&mut out, account_id, kv.1);
                                },
                                None => {},
                            }
                        },
                        None => {},
                    }
                }
            },
            None => {},
        }
        cur = cur1;
        i = i + 1;
    }
    out
}

/// The mapping a sequence of resolved users holds, later entries winning.
pub open spec fn names_map_of(s: Seq<UserName>) -> Map<u64, Seq<char>> {
    Map::new(
        |id: u64| spec_names_lookup(s, id) is Some,
        |id: u64| spec_names_lookup(s, id)->0,
    )
}

/// The name bound to an account, scanning from the most recent entry.
pub open spec fn spec_names_lookup(s: Seq<UserName>, id: u64) -> Option<Seq<char>>
    decreases s.len(),
{
    if s.len() == 0 {
        None
    } else if s.last().account_id == id {
        Some(s.last().name@)
    } else {
        spec_names_lookup(s.drop_last(), id)
    }
}

/// Bind an account to a name, replacing any earlier binding.
fn upsert_name(out: &mut Vec<UserName>, account_id: u64, name: String)
    requires
        forall|k1: int, k2: int|
            0 <= k1 < k2 < old(out)@.len() ==> (#[trigger] old(out)@[k1]).account_id != (
            #[trigger] old(out)@[k2]).account_id,
    ensures
        forall|k1: int, k2: int|
            0 <= k1 < k2 < final(out)@.len() ==> (#[trigger] final(out)@[k1]).account_id != (
            #[trigger] final(out)@[k2]).account_id,
        names_map_of(final(out)@) == names_map_of(old(out)@).insert(account_id, name@),
{
    let n: usize = out.len();
    let mut i: usize = 0;
    while i < n
        invariant
            out == old(out),
            forall|k1: int, k2: int|
                0 <= k1 < k2 < old(out)@.len() ==> (#[trigger] old(out)@[k1]).account_id != (
                #[trigger] old(out)@[k2]).account_id,
            n == out@.len(),
            i <= n,
            forall|j: int| 0 <= j < i ==> (#[trigger] out@[j]).account_id != account_id,
        decreases n - i,
    {
        if out[i].account_id == account_id {
            let ghost s = out@;
            let p = UserName { account_id, name };
            let ghost pg = p;
            out[i] = p;
            proof {
                assert forall|j: int|
                    0 <= j < s.len() && j != i implies s[j].account_id != pg.account_id by {
                    if j >= i {
                        assert(old(out)@[i as int].account_id != old(out)@[j].account_id);
                    }
                }
                assert forall|id: u64| true implies #[trigger] spec_names_lookup(out@, id) == (
                if id == pg.account_id {
                    Some(pg.name@)
                } else {
                    spec_names_lookup(s, id)
                }) by {
                    lemma_names_lookup_update(s, i as int, pg, id);
                }
                assert(names_map_of(out@) =~= names_map_of(s).insert(account_id, pg.name@));
                assert forall|a: int, b: int|
                    0 <= a < b < out@.len() implies (#[trigger] out@[a]).account_id != (
                #[trigger] out@[b]).account_id by {
                    if a == i {
                        assert(s[b].account_id != pg.account_id);
                    } else if b == i {
                        assert(s[a].account_id != pg.account_id);
                    } else {
                        assert(old(out)@[a].account_id != old(out)@[b].account_id);
                    }
                }
            }
            return ;
        }
        i = i + 1;
    }
    let ghost s = out@;
    let p = UserName { account_id, name };
    let ghost pg = p;
    out.push(p);
    proof {
        assert(out@.last() == pg);
        assert(out@.drop_last() =~= s);
        assert forall|id: u64| true implies #[trigger] spec_names_lookup(out@, id) == (
        if id == pg.account_id {
            Some(pg.name@)
        } else {
            spec_names_lookup(s, id)
        }) by {}
        assert(names_map_of(out@) =~= names_map_of(s).insert(account_id, pg.name@));
        assert forall|a: int, b: int|
            0 <= a < b < out@.len() implies (#[trigger] out@[a]).account_id != (
        #[trigger] out@[b]).account_id by {
            if b == out@.len() - 1 {
                assert(s[a].account_id != pg.account_id);
            } else {
                assert(old(out)@[a].account_id != old(out)@[b].account_id);
            }
        }
    }
}

/// Rebinding the one entry of an account updates exactly that binding.
proof fn lemma_names_lookup_update(s: Seq<UserName>, i: int, p: UserName, id: u64)
    requires
        0 <= i < s.len(),
        s[i].account_id == p.account_id,
        forall|j: int| 0 <= j < s.len() && j != i ==> s[j].account_id != p.account_id,
    ensures
        spec_names_lookup(s.update(i, p), id) == (if id == p.account_id {
            Some(p.name@)
        } else {
            spec_names_lookup(s, id)
        }),
    decreases s.len(),
{
    let t = s.update(i, p);
    if i == s.len() - 1 {
        assert(t.last() == p);
        assert(t.drop_last() =~= s.drop_last());
        if id != p.account_id {
            assert(s.last() == s[i]);
        }
    } else {
        assert(t.drop_last() =~= s.drop_last().update(i, p));
        assert(t.last() == s.last());
        assert(s.last().account_id != p.account_id);
        lemma_names_lookup_update(s.drop_last(), i, p, id);
    }
}

} // verus!
