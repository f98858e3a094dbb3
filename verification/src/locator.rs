//! Locating a Proton installation: natural version ordering, the listing of
//! installed versions, and the search over the well-known directories.
//!
//! The filesystem is read by the caller, which hands in each search
//! directory's entries with a validity flag ("the directory holds the
//! launcher executable"); everything here is pure selection logic.

use core::cmp::Ordering;
use vstd::prelude::*;

use crate::error::AppError;
use crate::text::{
    contains_sub, parse_u64, spec_all_digits, spec_contains, spec_digits_val, spec_is_digit,
    spec_lower, str_eq, to_lowercase,
};

verus! {

/// Lexicographic comparison of two character sequences.
pub open spec fn spec_lex_cmp(a: Seq<char>, b: Seq<char>) -> Ordering
    decreases a.len(),
{
    if a.len() == 0 && b.len() == 0 {
        Ordering::Equal
    } else if a.len() == 0 {
        Ordering::Less
    } else if b.len() == 0 {
        Ordering::Greater
    } else if a[0] < b[0] {
        Ordering::Less
    } else if b[0] < a[0] {
        Ordering::Greater
    } else {
        spec_lex_cmp(a.drop_first(), b.drop_first())
    }
}

/// Swapping the operands mirrors the answer.
pub proof fn lemma_lex_cmp_dual(a: Seq<char>, b: Seq<char>)
    ensures
        spec_lex_cmp(a, b) == (match spec_lex_cmp(b, a) {
            Ordering::Less => Ordering::Greater,
            Ordering::Equal => Ordering::Equal,
            Ordering::Greater => Ordering::Less,
        }),
    decreases a.len(),
{
    if a.len() > 0 && b.len() > 0 && !(a[0] < b[0]) && !(b[0] < a[0]) {
        lemma_lex_cmp_dual(a.drop_first(), b.drop_first());
    }
}

/// Compare two strings lexicographically.
pub fn lex_cmp(a: &str, b: &str) -> (r: Ordering)
    ensures
        r == spec_lex_cmp(a@, b@),
{
    let an: usize = a.unicode_len();
    let bn: usize = b.unicode_len();
    let mut i: usize = 0;
    proof {
        assert(a@.subrange(0, an as int) =~= a@);
        assert(b@.subrange(0, bn as int) =~= b@);
    }
    while i < an && i < bn
        invariant
            an == a@.len(),
            bn == b@.len(),
            i <= an,
            i <= bn,
            spec_lex_cmp(a@, b@) == spec_lex_cmp(
                a@.subrange(i as int, an as int),
                b@.subrange(i as int, bn as int),
            ),
        decreases an - i,
    {
        let ghost ta = a@.subrange(i as int, an as int);
        let ghost tb = b@.subrange(i as int, bn as int);
        let ca = a.get_char(i);
        let cb = b.get_char(i);
        if ca < cb {
            return Ordering::Less;
        }
        if cb < ca {
            return Ordering::Greater;
        }
        proof {
            assert(ta.drop_first() =~= a@.subrange(i + 1, an as int));
            assert(tb.drop_first() =~= b@.subrange(i + 1, bn as int));
        }
        i = i + 1;
    }
    proof {
        assert(a@.subrange(i as int, an as int).len() == an - i);
        assert(b@.subrange(i as int, bn as int).len() == bn - i);
    }
    if an == bn {
        Ordering::Equal
    } else if i >= an {
        Ordering::Less
    } else {
        Ordering::Greater
    }
}

/// Compare two version parts: two numeric runs compare as integers, any
/// other pair compares as case-folded text.
pub open spec fn spec_cmp_parts(a: Seq<char>, b: Seq<char>) -> Ordering {
    let na = spec_part_num(a);
    let nb = spec_part_num(b);
    match (na, nb) {
        (Some(x), Some(y)) => if x < y {
            Ordering::Less
        } else if y < x {
            Ordering::Greater
        } else {
            Ordering::Equal
        },
        _ => spec_lex_cmp(spec_lower(a), spec_lower(b)),
    }
}

/// The numeric value of a part, where it is a number that fits.
pub open spec fn spec_part_num(a: Seq<char>) -> Option<u64> {
    if a.len() > 0 && spec_all_digits(a) && spec_digits_val(a) <= u64::MAX {
        Some(spec_digits_val(a) as u64)
    } else {
        None
    }
}

pub proof fn lemma_cmp_parts_dual(a: Seq<char>, b: Seq<char>)
    ensures
        spec_cmp_parts(a, b) == (match spec_cmp_parts(b, a) {
            Ordering::Less => Ordering::Greater,
            Ordering::Equal => Ordering::Equal,
            Ordering::Greater => Ordering::Less,
        }),
{
    lemma_lex_cmp_dual(spec_lower(a), spec_lower(b));
}

/// Compare two version parts.
pub fn compare_parts(a: &str, b: &str) -> (r: Ordering)
    ensures
        r == spec_cmp_parts(a@, b@),
{
    let na = parse_u64(a);
    let nb = parse_u64(b);
    match (na, nb) {
        (Some(x), Some(y)) => {
            if x < y {
                Ordering::Less
            } else if y < x {
                Ordering::Greater
            } else {
                Ordering::Equal
            }
        },
        _ => {
            let la = to_lowercase(a);
            let lb = to_lowercase(b);
            lex_cmp(la.as_str(), lb.as_str())
        },
    }
}

/// The alternating digit and non-digit runs of a version name.
pub open spec fn spec_version_parts(s: Seq<char>) -> Seq<Seq<char>>
    decreases s.len(),
{
    if s.len() == 0 {
        Seq::empty()
    } else {
        let rest = spec_version_parts(s.drop_first());
        if s.len() >= 2 && spec_is_digit(s[1]) == spec_is_digit(s[0]) && rest.len() > 0 {
            seq![seq![s[0]] + rest[0]] + rest.drop_first()
        } else {
            seq![seq![s[0]]] + rest
        }
    }
}

proof fn lemma_version_parts_first(s: Seq<char>, k: int)
    requires
        1 <= k <= s.len(),
        forall|j: int| 0 < j < k ==> spec_is_digit(#[trigger] s[j]) == spec_is_digit(s[0]),
        k == s.len() || spec_is_digit(s[k]) != spec_is_digit(s[0]),
    ensures
        spec_version_parts(s) =~= seq![s.subrange(0, k)] + spec_version_parts(
            s.skip(k),
        ),
    decreases s.len(),
{
    if k == 1 {
        if s.len() >= 2 && spec_is_digit(s[1]) == spec_is_digit(s[0]) {
            assert(false);
        }
        assert(s.subrange(0, 1) =~= seq![s[0]]);
        assert(s.skip(1) =~= s.drop_first());
    } else {
        let t = s.drop_first();
        lemma_version_parts_first(t, k - 1);
        assert(spec_is_digit(t[0]) == spec_is_digit(s[0]));
        let rest = spec_version_parts(t);
        assert(rest =~= seq![t.subrange(0, k - 1)] + spec_version_parts(t.skip(k - 1)));
        assert(rest.len() > 0);
        assert(t.subrange(0, k - 1).len() == k - 1);
        if t.subrange(0, k - 1).len() == 0 {
            assert(false);
        }
        assert(s.len() >= 2);
        assert(spec_is_digit(s[1]) == spec_is_digit(s[0]));
        assert(seq![s[0]] + rest[0] =~= s.subrange(0, k));
        assert(rest.drop_first() =~= spec_version_parts(t.skip(k - 1)));
        assert(t.skip(k - 1) =~= s.skip(k));
    }
}

/// Split a version name into its alternating digit and non-digit runs.
pub fn split_version_parts(s: &str) -> (r: Vec<String>)
    ensures
        r.deep_view() == spec_version_parts(s@),
{
    let n: usize = s.unicode_len();
    let mut out: Vec<String> = Vec::new();
    let mut i: usize = 0;
    proof {
        assert(s@.subrange(0, n as int) =~= s@);
        assert(out.deep_view() + spec_version_parts(s@) =~= spec_version_parts(s@));
    }
    while i < n
        invariant
            n == s@.len(),
            i <= n,
            spec_version_parts(s@) == out.deep_view() + spec_version_parts(
                s@.subrange(i as int, n as int),
            ),
        decreases n - i,
    {
        let ghost tail = s@.subrange(i as int, n as int);
        let first_digit = crate::text::is_digit_char(s.get_char(i));
        let mut j: usize = i + 1;
        while j < n && crate::text::is_digit_char(s.get_char(j)) == first_digit
            invariant
                n == s@.len(),
                i < j <= n,
                first_digit == spec_is_digit(s@[i as int]),
                forall|m: int|
                    i < m < j ==> spec_is_digit(#[trigger] s@[m]) == spec_is_digit(s@[i as int]),
            decreases n - j,
        {
            j = j + 1;
        }
        let part = s.substring_char(i, j);
        out.push(part.to_owned());
        proof {
            assert forall|m: int| 0 < m < j - i implies spec_is_digit(#[trigger] tail[m])
                == spec_is_digit(tail[0]) by {
                assert(tail[m] == s@[i + m]);
            }
            if j < n {
                assert(tail[j - i] == s@[j as int]);
            }
            lemma_version_parts_first(tail, j - i);
            assert(tail.subrange(0, j - i) =~= s@.subrange(i as int, j as int));
            assert(tail.skip(j - i) =~= s@.subrange(j as int, n as int));
            assert(out.deep_view() =~= out.deep_view().subrange(
                0,
                out.deep_view().len() - 1,
            ).push(part@));
            assert(spec_version_parts(s@) =~= out.deep_view() + spec_version_parts(
                s@.subrange(j as int, n as int),
            ));
        }
        i = j;
    }
    proof {
        assert(s@.subrange(n as int, n as int) =~= Seq::<char>::empty());
        assert(spec_version_parts(Seq::<char>::empty()) =~= Seq::<Seq<char>>::empty());
        assert(out.deep_view() =~= spec_version_parts(s@));
    }
    out
}

/// Compare version-part sequences run by run; a strict prefix sorts first.
pub open spec fn spec_cmp_part_seqs(pa: Seq<Seq<char>>, pb: Seq<Seq<char>>) -> Ordering
    decreases pa.len(),
{
    if pa.len() == 0 && pb.len() == 0 {
        Ordering::Equal
    } else if pa.len() == 0 {
        Ordering::Less
    } else if pb.len() == 0 {
        Ordering::Greater
    } else {
        match spec_cmp_parts(pa[0], pb[0]) {
            Ordering::Equal => spec_cmp_part_seqs(pa.drop_first(), pb.drop_first()),
            o => o,
        }
    }
}

/// Natural ordering of version names: digit runs as numbers, other runs as
/// case-folded text, a strict prefix first.
pub open spec fn spec_cmp_version_names(a: Seq<char>, b: Seq<char>) -> Ordering {
    spec_cmp_part_seqs(spec_version_parts(a), spec_version_parts(b))
}

pub proof fn lemma_cmp_part_seqs_dual(pa: Seq<Seq<char>>, pb: Seq<Seq<char>>)
    ensures
        spec_cmp_part_seqs(pa, pb) == (match spec_cmp_part_seqs(pb, pa) {
            Ordering::Less => Ordering::Greater,
            Ordering::Equal => Ordering::Equal,
            Ordering::Greater => Ordering::Less,
        }),
    decreases pa.len(),
{
    if pa.len() > 0 && pb.len() > 0 {
        lemma_cmp_parts_dual(pa[0], pb[0]);
        if spec_cmp_parts(pa[0], pb[0]) == Ordering::Equal {
            lemma_cmp_part_seqs_dual(pa.drop_first(), pb.drop_first());
        }
    }
}

/// Swapping the names mirrors the answer.
pub proof fn lemma_cmp_version_names_dual(a: Seq<char>, b: Seq<char>)
    ensures
        spec_cmp_version_names(a, b) == (match spec_cmp_version_names(b, a) {
            Ordering::Less => Ordering::Greater,
            Ordering::Equal => Ordering::Equal,
            Ordering::Greater => Ordering::Less,
        }),
{
    lemma_cmp_part_seqs_dual(spec_version_parts(a), spec_version_parts(b));
}

/// Compare two version names in natural order.
pub fn compare_version_names(a: &str, b: &str) -> (r: Ordering)
    ensures
        r == spec_cmp_version_names(a@, b@),
{
    let pa = split_version_parts(a);
    let pb = split_version_parts(b);
    let an: usize = pa.len();
    let bn: usize = pb.len();
    let ghost ga = pa.deep_view();
    let ghost gb = pb.deep_view();
    let mut i: usize = 0;
    proof {
        assert(ga.skip(0) =~= ga);
        assert(gb.skip(0) =~= gb);
    }
    while i < an && i < bn
        invariant
            an == ga.len(),
            bn == gb.len(),
            ga == pa.deep_view(),
            gb == pb.deep_view(),
            ga == spec_version_parts(a@),
            gb == spec_version_parts(b@),
            an == pa@.len(),
            bn == pb@.len(),
            i <= an,
            i <= bn,
            spec_cmp_part_seqs(ga, gb) == spec_cmp_part_seqs(
                ga.skip(i as int),
                gb.skip(i as int),
            ),
        decreases an - i,
    {
        proof {
            assert(ga[i as int] == pa@[i as int]@);
            assert(gb[i as int] == pb@[i as int]@);
            assert(ga.skip(i as int)[0] == ga[i as int]);
            assert(gb.skip(i as int)[0] == gb[i as int]);
        }
        let o = compare_parts(pa[i].as_str(), pb[i].as_str());
        match o {
            Ordering::Equal => {
                proof {
                    assert(ga.skip(i as int).drop_first() =~= ga.skip(i + 1));
                    assert(gb.skip(i as int).drop_first() =~= gb.skip(i + 1));
                }
                i = i + 1;
            },
            other => {
                proof {
                    assert(spec_cmp_part_seqs(ga.skip(i as int), gb.skip(i as int))
                        == spec_cmp_parts(ga[i as int], gb[i as int]));
                }
                return other;
            },
        }
    }
    proof {
        assert(ga.skip(i as int).len() == an - i);
        assert(gb.skip(i as int).len() == bn - i);
    }
    if an == bn {
        Ordering::Equal
    } else if i >= an {
        Ordering::Less
    } else {
        Ordering::Greater
    }
}

/// One directory entry of a search path: its name, its full path, and
/// whether it holds the launcher executable.
#[derive(Debug, Clone)]
pub struct DirEntry {
    pub name: String,
    pub path: String,
    pub valid: bool,
}

/// One search path with its directory listing, in listing order.
#[derive(Debug, Clone)]
pub struct SearchDir {
    pub path: String,
    pub entries: Vec<DirEntry>,
}

/// All entries of all search paths, flattened in priority order.
pub open spec fn spec_all_entries(dirs: Seq<SearchDir>) -> Seq<DirEntry>
    decreases dirs.len(),
{
    if dirs.len() == 0 {
        Seq::empty()
    } else {
        spec_all_entries(dirs.drop_last()) + dirs.last().entries@
    }
}

/// Natural non-strict order on names.
pub open spec fn spec_leq_names(a: Seq<char>, b: Seq<char>) -> bool {
    spec_cmp_version_names(a, b) != Ordering::Greater
}

/// Each adjacent pair is in natural order.
pub open spec fn spec_sorted_entries(s: Seq<DirEntry>) -> bool {
    forall|k: int|
        0 <= k < s.len() - 1 ==> spec_leq_names(#[trigger] s[k].name@, s[k + 1].name@)
}

/// `e` is the first valid entry carrying its name, in priority order.
pub open spec fn spec_is_first_valid(es: Seq<DirEntry>, e: DirEntry) -> bool {
    exists|i: int|
        0 <= i < es.len() && #[trigger] es[i] == e && e.valid && (forall|j: int|
            0 <= j < i ==> !((#[trigger] es[j]).valid && es[j].name@ == e.name@))
}

/// Whether some collected entry already carries this name.
fn has_name(acc: &Vec<DirEntry>, name: &str) -> (r: bool)
    ensures
        r == exists|k: int| 0 <= k < acc@.len() && (#[trigger] acc@[k]).name@ == name@,
{
    let n: usize = acc.len();
    let mut k: usize = 0;
    while k < n
        invariant
            n == acc@.len(),
            k <= n,
            forall|m: int| 0 <= m < k ==> (#[trigger] acc@[m]).name@ != name@,
        decreases n - k,
    {
        if str_eq(acc[k].name.as_str(), name) {
            return true;
        }
        k = k + 1;
    }
    false
}

/// Insert an entry into a name-sorted vector, keeping it sorted.
fn insert_sorted(out: &mut Vec<DirEntry>, x: DirEntry)
    requires
        spec_sorted_entries(old(out)@),
    ensures
        spec_sorted_entries(final(out)@),
        exists|j: int| 0 <= j <= old(out)@.len() && final(out)@ == old(out)@.insert(j, x),
{
    let n: usize = out.len();
    let mut j: usize = n;
    while j > 0 && matches!(compare_version_names(out[j - 1].name.as_str(), x.name.as_str()), Ordering::Greater)
        invariant
            n == out@.len(),
            out == old(out),
            j <= n,
            forall|k: int|
                j <= k < n ==> spec_cmp_version_names((#[trigger] out@[k]).name@, x.name@)
                    == Ordering::Greater,
        decreases j,
    {
        j = j - 1;
    }
    let ghost oldv = out@;
    let ghost gx = x;
    out.insert(j, x);
    proof {
        assert(out@ =~= oldv.insert(j as int, gx));
        assert forall|k: int|
            0 <= k < out@.len() - 1 implies spec_leq_names(
            (#[trigger] out@[k]).name@,
            out@[k + 1].name@,
        ) by {
            if k + 1 < j {
                assert(out@[k] == oldv[k]);
                assert(out@[k + 1] == oldv[k + 1]);
                assert(spec_leq_names(oldv[k].name@, oldv[k + 1].name@));
            } else if k + 1 == j {
                assert(out@[k] == oldv[k]);
                assert(out@[k + 1] == gx);
                assert(!(spec_cmp_version_names(oldv[j - 1].name@, gx.name@)
                    == Ordering::Greater));
            } else if k == j {
                assert(out@[k] == gx);
                assert(out@[k + 1] == oldv[k]);
                assert(spec_cmp_version_names(oldv[k].name@, gx.name@) == Ordering::Greater);
                lemma_cmp_version_names_dual(gx.name@, oldv[k].name@);
            } else {
                assert(out@[k] == oldv[k - 1]);
                assert(out@[k + 1] == oldv[k]);
                assert(spec_leq_names(oldv[k - 1].name@, oldv[k].name@));
            }
        }
        assert(0 <= j as int <= oldv.len() && out@ == oldv.insert(j as int, gx));
    }
}

/// Collect every valid installation across the search paths, first
/// occurrence of each name winning, and sort them in natural version order.
pub fn list_proton_versions(dirs: &Vec<SearchDir>) -> (r: Vec<DirEntry>)
    ensures
        forall|k1: int, k2: int|
            0 <= k1 < k2 < r@.len() ==> (#[trigger] r@[k1]).name@ != (#[trigger] r@[k2]).name@,
        forall|k: int|
            0 <= k < r@.len() ==> spec_is_first_valid(spec_all_entries(dirs@), #[trigger] r@[k]),
        forall|i: int|
            0 <= i < spec_all_entries(dirs@).len() && (#[trigger] spec_all_entries(
                dirs@,
            )[i]).valid ==> exists|k: int|
                0 <= k < r@.len() && (#[trigger] r@[k]).name@ == spec_all_entries(dirs@)[i].name@,
        spec_sorted_entries(r@),
{
    let nd: usize = dirs.len();
    let mut acc: Vec<DirEntry> = Vec::new();
    let mut d: usize = 0;
    proof {
        assert(spec_all_entries(dirs@.subrange(0, 0)) =~= Seq::<DirEntry>::empty());
    }
    while d < nd
        invariant
            nd == dirs@.len(),
            d <= nd,
            forall|k1: int, k2: int|
                0 <= k1 < k2 < acc@.len() ==> (#[trigger] acc@[k1]).name@ != (
                #[trigger] acc@[k2]).name@,
            forall|k: int|
                0 <= k < acc@.len() ==> spec_is_first_valid(
                    spec_all_entries(dirs@.subrange(0, d as int)),
                    #[trigger] acc@[k],
                ),
            forall|i: int|
                0 <= i < spec_all_entries(dirs@.subrange(0, d as int)).len() && (
                #[trigger] spec_all_entries(dirs@.subrange(0, d as int))[i]).valid ==> exists|
                    k: int,
                |
                    0 <= k < acc@.len() && (#[trigger] acc@[k]).name@ == spec_all_entries(
                        dirs@.subrange(0, d as int),
                    )[i].name@,
        decreases nd - d,
    {
        let ghost pre = spec_all_entries(dirs@.subrange(0, d as int));
        let ne: usize = dirs[d].entries.len();
        let mut e: usize = 0;
        while e < ne
            invariant
                nd == dirs@.len(),
                d < nd,
                ne == dirs@[d as int].entries@.len(),
                e <= ne,
                pre == spec_all_entries(dirs@.subrange(0, d as int)),
                forall|k1: int, k2: int|
                    0 <= k1 < k2 < acc@.len() ==> (#[trigger] acc@[k1]).name@ != (
                    #[trigger] acc@[k2]).name@,
                forall|k: int|
                    0 <= k < acc@.len() ==> spec_is_first_valid(
                        pre + dirs@[d as int].entries@.subrange(0, e as int),
                        #[trigger] acc@[k],
                    ),
                forall|i: int|
                    0 <= i < (pre + dirs@[d as int].entries@.subrange(0, e as int)).len() && (
                    #[trigger] (pre + dirs@[d as int].entries@.subrange(0, e as int))[i]).valid
                    ==> exists|k: int|
                        0 <= k < acc@.len() && (#[trigger] acc@[k]).name@ == (pre
                            + dirs@[d as int].entries@.subrange(0, e as int))[i].name@,
            decreases ne - e,
        {
            let ghost cur = pre + dirs@[d as int].entries@.subrange(0, e as int);
            let ghost cur1 = pre + dirs@[d as int].entries@.subrange(0, e + 1);
            proof {
                assert(cur1 =~= cur.push(dirs@[d as int].entries@[e as int]));
            }
            let entry = &dirs[d].entries[e];
            if entry.valid && !has_name(&acc, entry.name.as_str()) {
                let ghost accv = acc@;
                let copy = DirEntry {
                    name: entry.name.clone(),
                    path: entry.path.clone(),
                    valid: entry.valid,
                };
                acc.push(copy);
                proof {
                    let ge = dirs@[d as int].entries@[e as int];
                    assert(acc@ =~= accv.push(ge));
                    assert forall|k1: int, k2: int|
                        0 <= k1 < k2 < acc@.len() implies (#[trigger] acc@[k1]).name@ != (
                    #[trigger] acc@[k2]).name@ by {
                        if k2 == acc@.len() - 1 {
                            assert(acc@[k1] == accv[k1]);
                            assert(!(accv[k1].name@ == ge.name@));
                        } else {
                            assert(acc@[k1] == accv[k1]);
                            assert(acc@[k2] == accv[k2]);
                        }
                    }
                    assert forall|k: int|
                        0 <= k < acc@.len() implies spec_is_first_valid(
                        cur1,
                        #[trigger] acc@[k],
                    ) by {
                        if k < accv.len() {
                            let i0 = choose|i: int|
                                0 <= i < cur.len() && #[trigger] cur[i] == accv[k]
                                    && accv[k].valid && (forall|j: int|
                                    0 <= j < i ==> !((#[trigger] cur[j]).valid && cur[j].name@
                                        == accv[k].name@));
                            assert(cur1[i0] == accv[k]);
                            assert(spec_is_first_valid(cur1, acc@[k]));
                        } else {
                            let i0: int = cur.len() as int;
                            assert(cur1[i0] == ge);
                            assert forall|j: int|
                                0 <= j < i0 implies !((#[trigger] cur1[j]).valid && cur1[j].name@
                                == ge.name@) by {
                                if cur1[j].valid && cur1[j].name@ == ge.name@ {
                                    assert(cur[j].valid && cur[j].name@ == ge.name@);
                                    assert(exists|k2: int|
                                        0 <= k2 < accv.len() && (#[trigger] accv[k2]).name@
                                            == cur[j].name@);
                                }
                            }
                            assert(spec_is_first_valid(cur1, ge));
                        }
                    }
                    assert forall|i: int|
                        0 <= i < cur1.len() && (#[trigger] cur1[i]).valid implies exists|k: int|
                        0 <= k < acc@.len() && (#[trigger] acc@[k]).name@ == cur1[i].name@ by {
                        if i < cur.len() {
                            assert(cur[i].valid);
                            let k0 = choose|k: int|
                                0 <= k < accv.len() && (#[trigger] accv[k]).name@ == cur[i].name@;
                            assert(acc@[k0].name@ == cur1[i].name@);
                        } else {
                            assert(acc@[acc@.len() - 1].name@ == cur1[i].name@);
                        }
                    }
                }
            } else {
                proof {
                    let ge = dirs@[d as int].entries@[e as int];
                    assert forall|k: int|
                        0 <= k < acc@.len() implies spec_is_first_valid(
                        cur1,
                        #[trigger] acc@[k],
                    ) by {
                        let i0 = choose|i: int|
                            0 <= i < cur.len() && #[trigger] cur[i] == acc@[k] && acc@[k].valid
                                && (forall|j: int|
                                0 <= j < i ==> !((#[trigger] cur[j]).valid && cur[j].name@
                                    == acc@[k].name@));
                        assert(cur1[i0] == acc@[k]);
                    }
                    assert forall|i: int|
                        0 <= i < cur1.len() && (#[trigger] cur1[i]).valid implies exists|k: int|
                        0 <= k < acc@.len() && (#[trigger] acc@[k]).name@ == cur1[i].name@ by {
                        if i < cur.len() {
                            assert(cur[i].valid);
                        } else {
                            assert(cur1[i] == ge);
                            if ge.valid {
                                assert(exists|k: int|
                                    0 <= k < acc@.len() && (#[trigger] acc@[k]).name@
                                        == ge.name@);
                            }
                        }
                    }
                }
            }
            e = e + 1;
        }
        proof {
            assert(dirs@.subrange(0, d + 1).drop_last() =~= dirs@.subrange(0, d as int));
            assert(dirs@.subrange(0, d + 1).last() == dirs@[d as int]);
            assert(dirs@[d as int].entries@.subrange(0, ne as int) =~= dirs@[d as int].entries@);
            assert(spec_all_entries(dirs@.subrange(0, d + 1)) =~= pre
                + dirs@[d as int].entries@.subrange(0, ne as int));
        }
        d = d + 1;
    }
    proof {
        assert(dirs@.subrange(0, nd as int) =~= dirs@);
    }
    let mut acc = acc;
    let mut out: Vec<DirEntry> = Vec::new();
    while acc.len() > 0
        invariant
            spec_sorted_entries(out@),
            forall|k: int|
                0 <= k < out@.len() ==> spec_is_first_valid(
                    spec_all_entries(dirs@),
                    #[trigger] out@[k],
                ),
            forall|k1: int, k2: int|
                0 <= k1 < k2 < out@.len() ==> (#[trigger] out@[k1]).name@ != (
                #[trigger] out@[k2]).name@,
            forall|k1: int, k2: int|
                0 <= k1 < acc@.len() && 0 <= k2 < out@.len() ==> (#[trigger] acc@[k1]).name@ != (
                #[trigger] out@[k2]).name@,
            forall|k1: int, k2: int|
                0 <= k1 < k2 < acc@.len() ==> (#[trigger] acc@[k1]).name@ != (
                #[trigger] acc@[k2]).name@,
            forall|k: int|
                0 <= k < acc@.len() ==> spec_is_first_valid(
                    spec_all_entries(dirs@),
                    #[trigger] acc@[k],
                ),
            forall|i: int|
                0 <= i < spec_all_entries(dirs@).len() && (#[trigger] spec_all_entries(
                    dirs@,
                )[i]).valid ==> (exists|k: int|
                    0 <= k < acc@.len() && (#[trigger] acc@[k]).name@ == spec_all_entries(
                        dirs@,
                    )[i].name@) || (exists|k: int|
                    0 <= k < out@.len() && (#[trigger] out@[k]).name@ == spec_all_entries(
                        dirs@,
                    )[i].name@),
        decreases acc@.len(),
    {
        let ghost accv = acc@;
        let x = acc.pop().unwrap();
        let ghost outv = out@;
        insert_sorted(&mut out, x);
        proof {
            let gx = accv.last();
            assert(acc@ =~= accv.drop_last());
            let j = choose|j: int| 0 <= j <= outv.len() && out@ == outv.insert(j, gx);
            outv.insert_ensures(j, gx);
            assert forall|m: int| 0 <= m < outv.len() implies gx.name@ != (
            #[trigger] outv[m]).name@ by {
                assert(accv[accv.len() - 1].name@ != outv[m].name@);
            }
            assert forall|k1: int, k2: int|
                0 <= k1 < k2 < out@.len() implies (#[trigger] out@[k1]).name@ != (
            #[trigger] out@[k2]).name@ by {
                if k1 == j {
                    assert(out@[k1] == gx);
                    assert(out@[k2] == outv[k2 - 1]);
                } else if k2 == j {
                    assert(out@[k2] == gx);
                    assert(out@[k1] == outv[k1]);
                } else {
                    let m1: int = if k1 < j { k1 } else { k1 - 1 };
                    let m2: int = if k2 < j { k2 } else { k2 - 1 };
                    assert(out@[k1] == outv[m1]);
                    assert(out@[k2] == outv[m2]);
                    assert(outv[m1].name@ != outv[m2].name@);
                }
            }
            assert forall|k: int|
                0 <= k < out@.len() implies spec_is_first_valid(
                spec_all_entries(dirs@),
                #[trigger] out@[k],
            ) by {
                if k == j {
                    assert(out@[k] == gx);
                    assert(spec_is_first_valid(spec_all_entries(dirs@), accv[accv.len() - 1]));
                } else if k < j {
                    assert(out@[k] == outv[k]);
                } else {
                    assert(out@[k] == outv[k - 1]);
                }
            }
            assert forall|k1: int, k2: int|
                0 <= k1 < acc@.len() && 0 <= k2 < out@.len() implies (
            #[trigger] acc@[k1]).name@ != (#[trigger] out@[k2]).name@ by {
                assert(acc@[k1] == accv[k1]);
                if k2 == j {
                    assert(out@[k2] == gx);
                    assert(accv[k1].name@ != accv[accv.len() - 1].name@);
                } else {
                    let m: int = if k2 < j { k2 } else { k2 - 1 };
                    assert(out@[k2] == outv[m]);
                    assert(accv[k1].name@ != outv[m].name@);
                }
            }
            let ghost es2 = spec_all_entries(dirs@);
            assert forall|i: int|
                0 <= i < es2.len() && (#[trigger] es2[i]).valid implies (exists|k: int|
                0 <= k < acc@.len() && (#[trigger] acc@[k]).name@ == es2[i].name@) || (exists|
                k: int,
            |
                0 <= k < out@.len() && (#[trigger] out@[k]).name@ == es2[i].name@) by {
                if exists|k: int|
                    0 <= k < accv.len() && (#[trigger] accv[k]).name@ == es2[i].name@ {
                    let k0 = choose|k: int|
                        0 <= k < accv.len() && (#[trigger] accv[k]).name@ == es2[i].name@;
                    if k0 < accv.len() - 1 {
                        assert(acc@[k0].name@ == es2[i].name@);
                    } else {
                        assert(out@[j].name@ == es2[i].name@);
                    }
                } else {
                    let k0 = choose|k: int|
                        0 <= k < outv.len() && (#[trigger] outv[k]).name@ == es2[i].name@;
                    if k0 < j {
                        assert(out@[k0].name@ == es2[i].name@);
                    } else {
                        assert(out@[k0 + 1].name@ == es2[i].name@);
                    }
                }
            }
        }
    }
    out
}

/// The first valid entry named exactly `v`, from position `i` on.
pub open spec fn spec_first_exact(es: Seq<DirEntry>, i: int, v: Seq<char>) -> Option<int>
    decreases es.len() - i,
{
    if i < 0 || i >= es.len() {
        None
    } else if es[i].valid && es[i].name@ == v {
        Some(i)
    } else {
        spec_first_exact(es, i + 1, v)
    }
}

/// The first valid entry whose case-folded name contains the case-folded
/// request, from position `i` on.
pub open spec fn spec_first_ci(es: Seq<DirEntry>, i: int, v: Seq<char>) -> Option<int>
    decreases es.len() - i,
{
    if i < 0 || i >= es.len() {
        None
    } else if es[i].valid && spec_contains(spec_lower(es[i].name@), spec_lower(v)) {
        Some(i)
    } else {
        spec_first_ci(es, i + 1, v)
    }
}

/// The entry one search directory yields for a requested version: an exact
/// name match first, then a case-insensitive substring match.
pub open spec fn spec_dir_pick(es: Seq<DirEntry>, v: Seq<char>) -> Option<int> {
    match spec_first_exact(es, 0, v) {
        Some(i) => Some(i),
        None => spec_first_ci(es, 0, v),
    }
}

/// The path a requested version resolves to, searching the directories in
/// priority order.
pub open spec fn spec_locate_requested(dirs: Seq<SearchDir>, d: int, v: Seq<char>) -> Option<
    Seq<char>,
>
    decreases dirs.len() - d,
{
    if d < 0 || d >= dirs.len() {
        None
    } else {
        match spec_dir_pick(dirs[d].entries@, v) {
            Some(i) => Some(dirs[d].entries@[i].path@),
            None => spec_locate_requested(dirs, d + 1, v),
        }
    }
}

/// A valid installation whose case-folded name contains the family token.
pub open spec fn spec_is_proton_entry(e: DirEntry) -> bool {
    e.valid && spec_contains(spec_lower(e.name@), "proton"@)
}

/// The index of the lexicographically greatest proton entry, earliest among
/// equals; `best` carries the running answer, `-1` for none yet.
pub open spec fn spec_best_proton(es: Seq<DirEntry>, i: int, best: int) -> int
    decreases es.len() - i,
{
    if i < 0 || i >= es.len() {
        best
    } else if spec_is_proton_entry(es[i]) && (best < 0 || spec_lex_cmp(
        es[i].name@,
        es[best].name@,
    ) == Ordering::Greater) {
        spec_best_proton(es, i + 1, i)
    } else {
        spec_best_proton(es, i + 1, best)
    }
}

/// The path an unconstrained search resolves to: across all search paths,
/// the valid proton-named entry with the greatest raw name, the earliest in
/// priority order among equal names.
pub open spec fn spec_locate_any(dirs: Seq<SearchDir>) -> Option<Seq<char>> {
    let es = spec_all_entries(dirs);
    let b = spec_best_proton(es, 0, -1);
    if b >= 0 {
        Some(es[b].path@)
    } else {
        None
    }
}

/// Pick the entry a requested version resolves to in one directory.
fn dir_pick(entries: &Vec<DirEntry>, v: &str) -> (r: Option<usize>)
    ensures
        match r {
            Some(i) => i < entries@.len() && spec_dir_pick(entries@, v@) == Some(i as int),
            None => spec_dir_pick(entries@, v@) is None,
        },
{
    let n: usize = entries.len();
    let mut i: usize = 0;
    while i < n
        invariant
            n == entries@.len(),
            i <= n,
            spec_first_exact(entries@, 0, v@) == spec_first_exact(entries@, i as int, v@),
        decreases n - i,
    {
        if entries[i].valid && str_eq(entries[i].name.as_str(), v) {
            return Some(i);
        }
        i = i + 1;
    }
    let lv = to_lowercase(v);
    let mut j: usize = 0;
    while j < n
        invariant
            n == entries@.len(),
            j <= n,
            lv@ == spec_lower(v@),
            spec_first_exact(entries@, 0, v@) is None,
            spec_first_ci(entries@, 0, v@) == spec_first_ci(entries@, j as int, v@),
        decreases n - j,
    {
        if entries[j].valid {
            let ln = to_lowercase(entries[j].name.as_str());
            if contains_sub(ln.as_str(), lv.as_str()) {
                return Some(j);
            }
        }
        j = j + 1;
    }
    None
}

/// Locate a Proton installation.  With a requested version, each search
/// directory is tried in priority order, an exact name match before an
/// ASCII-case-insensitive substring match; without one, a valid override
/// entry wins, else the greatest-named valid proton entry across all search
/// paths is taken.  Fails with the requested name (or `any`) otherwise.
pub fn locate_proton(
    requested: Option<&str>,
    dirs: &Vec<SearchDir>,
    override_tool: Option<&DirEntry>,
) -> (r: Result<String, AppError>)
    ensures
        match requested {
            Some(v) => match r {
                Ok(p) => spec_locate_requested(dirs@, 0, v@) == Some(p@),
                Err(e) => spec_locate_requested(dirs@, 0, v@) is None && (
                e matches AppError::ProtonNotFound(n) && n@ == v@),
            },
            None => match r {
                Ok(p) => (match override_tool {
                    Some(t) => t.valid && p@ == t.path@,
                    None => false,
                }) || ((match override_tool {
                    Some(t) => !t.valid,
                    None => true,
                }) && spec_locate_any(dirs@) == Some(p@)),
                Err(e) => (match override_tool {
                    Some(t) => !t.valid,
                    None => true,
                }) && spec_locate_any(dirs@) is None && (
                e matches AppError::ProtonNotFound(n) && n@ == "any"@),
            },
        },
{
    match requested {
        Some(v) => {
            let nd: usize = dirs.len();
            let mut d: usize = 0;
            while d < nd
                invariant
                    requested == Some(v),
                    nd == dirs@.len(),
                    d <= nd,
                    spec_locate_requested(dirs@, 0, v@) == spec_locate_requested(
                        dirs@,
                        d as int,
                        v@,
                    ),
                decreases nd - d,
            {
                match dir_pick(&dirs[d].entries, v) {
                    Some(i) => {
                        proof {
                            assert(spec_locate_requested(dirs@, d as int, v@) == Some(
                                dirs@[d as int].entries@[i as int].path@,
                            ));
                            assert(spec_locate_requested(dirs@, 0, v@) == Some(
                                dirs@[d as int].entries@[i as int].path@,
                            ));
                        }
                        let pc = dirs[d].entries[i].path.clone();
                        proof {
                            assert(pc@ == dirs@[d as int].entries@[i as int].path@);
                        }
                        return Ok(pc);
                    },
                    None => {
                        proof {
                            assert(spec_locate_requested(dirs@, d as int, v@)
                                == spec_locate_requested(dirs@, d + 1, v@));
                        }
                    },
                }
                d = d + 1;
            }
            Err(AppError::ProtonNotFound(v.to_owned()))
        },
        None => {
            match override_tool {
                Some(t) => {
                    if t.valid {
                        return Ok(t.path.clone());
                    }
                },
                None => {},
            }
            // Flatten every search path's entries in priority order.
            let nd: usize = dirs.len();
            let mut flat: Vec<DirEntry> = Vec::new();
            let mut d: usize = 0;
            proof {
                assert(spec_all_entries(dirs@.subrange(0, 0)) =~= Seq::<DirEntry>::empty());
                assert(flat@ =~= spec_all_entries(dirs@.subrange(0, 0)));
            }
            while d < nd
                invariant
                    nd == dirs@.len(),
                    d <= nd,
                    flat@ == spec_all_entries(dirs@.subrange(0, d as int)),
                decreases nd - d,
            {
                let ghost pre = spec_all_entries(dirs@.subrange(0, d as int));
                let ne: usize = dirs[d].entries.len();
                let mut e: usize = 0;
                proof {
                    assert(dirs@[d as int].entries@.subrange(0, 0) =~= Seq::<DirEntry>::empty());
                    assert(flat@ =~= pre + dirs@[d as int].entries@.subrange(0, 0));
                }
                while e < ne
                    invariant
                        nd == dirs@.len(),
                        d < nd,
                        ne == dirs@[d as int].entries@.len(),
                        e <= ne,
                        pre == spec_all_entries(dirs@.subrange(0, d as int)),
                        flat@ == pre + dirs@[d as int].entries@.subrange(0, e as int),
                    decreases ne - e,
                {
                    let entry = &dirs[d].entries[e];
                    let copy = DirEntry {
                        name: entry.name.clone(),
                        path: entry.path.clone(),
                        valid: entry.valid,
                    };
                    proof {
                        assert(copy == dirs@[d as int].entries@[e as int]);
                    }
                    flat.push(copy);
                    proof {
                        assert(flat@ =~= pre + dirs@[d as int].entries@.subrange(0, e + 1));
                    }
                    e = e + 1;
                }
                proof {
                    assert(dirs@.subrange(0, d + 1).drop_last() =~= dirs@.subrange(0, d as int));
                    assert(dirs@.subrange(0, d + 1).last() == dirs@[d as int]);
                    assert(dirs@[d as int].entries@.subrange(0, ne as int) =~= dirs@[
                        d as int
                    ].entries@);
                    assert(spec_all_entries(dirs@.subrange(0, d + 1)) =~= pre + dirs@[
                        d as int
                    ].entries@.subrange(0, ne as int));
                }
                d = d + 1;
            }
            proof {
                assert(dirs@.subrange(0, nd as int) =~= dirs@);
                assert(flat@ == spec_all_entries(dirs@));
            }
            // Take the greatest-named valid proton entry of the whole set.
            let total: usize = flat.len();
            let mut i: usize = 0;
            let mut best: Option<usize> = None;
            while i < total
                invariant
                    requested is None,
                    (match override_tool {
                        Some(t) => !t.valid,
                        None => true,
                    }),
                    total == flat@.len(),
                    flat@ == spec_all_entries(dirs@),
                    i <= total,
                    match best {
                        Some(b) => b < i && spec_best_proton(flat@, i as int, b as int)
                            == spec_best_proton(flat@, 0, -1),
                        None => spec_best_proton(flat@, i as int, -1) == spec_best_proton(
                            flat@,
                            0,
                            -1,
                        ),
                    },
                decreases total - i,
            {
                let is_p = if flat[i].valid {
                    let ln = to_lowercase(flat[i].name.as_str());
                    contains_sub(ln.as_str(), "proton")
                } else {
                    false
                };
                let better = if is_p {
                    match best {
                        Some(b) => matches!(
                            lex_cmp(flat[i].name.as_str(), flat[b].name.as_str()),
                            Ordering::Greater
                        ),
                        None => true,
                    }
                } else {
                    false
                };
                if better {
                    best = Some(i);
                }
                i = i + 1;
            }
            match best {
                Some(b) => {
                    proof {
                        assert(spec_best_proton(flat@, total as int, b as int) == b as int);
                        assert(spec_best_proton(spec_all_entries(dirs@), 0, -1) == b as int);
                        assert(spec_locate_any(dirs@) == Some(
                            spec_all_entries(dirs@)[b as int].path@,
                        ));
                    }
                    let pc = flat[b].path.clone();
                    proof {
                        assert(pc@ == spec_all_entries(dirs@)[b as int].path@);
                    }
                    Ok(pc)
                },
                None => {
                    proof {
                        assert(spec_best_proton(flat@, total as int, -1) == -1);
                        assert(spec_best_proton(spec_all_entries(dirs@), 0, -1) == -1);
                            assert(spec_locate_any(dirs@) is None);
                    }
                    Err(AppError::ProtonNotFound(String::from_str("any")))
                },
            }
        },
    }
}

} // verus!
