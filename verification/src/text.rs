//! Character and string utilities shared by the parsing and composition code.
//!
//! All logic here works over `Seq<char>` views; the one trusted item is
//! `push_char`, a wrapper for `String::push`.

use vstd::prelude::*;

verus! {

/// Relies on String::push: appends exactly one character.
#[verifier::external_body]
pub(crate) fn push_char(s: &mut String, c: char)
    ensures
        final(s)@ == old(s)@.push(c),
{
    s.push(c);
}

/// Whitespace characters recognised when trimming lines.
pub open spec fn spec_is_space(c: char) -> bool {
    c == ' ' || c == '\t' || c == '\r' || c == '\n'
}

pub fn is_space(c: char) -> (r: bool)
    ensures
        r == spec_is_space(c),
{
    c == ' ' || c == '\t' || c == '\r' || c == '\n'
}

/// Decimal digit test.
pub open spec fn spec_is_digit(c: char) -> bool {
    '0' <= c && c <= '9'
}

pub fn is_digit_char(c: char) -> (r: bool)
    ensures
        r == spec_is_digit(c),
{
    '0' <= c && c <= '9'
}

/// ASCII lower-casing of one character.
pub open spec fn spec_lower_char(c: char) -> char {
    if 'A' <= c && c <= 'Z' {
        ((c as u8) + 32) as char
    } else {
        c
    }
}

pub fn lower_char(c: char) -> (r: char)
    ensures
        r == spec_lower_char(c),
{
    if 'A' <= c && c <= 'Z' {
        ((c as u8) + 32) as char
    } else {
        c
    }
}

/// ASCII lower-casing of a whole sequence.  The fold is ASCII-only: a
/// non-ASCII letter passes through unchanged, so case-insensitive matching
/// throughout the library is ASCII case-insensitive.
pub open spec fn spec_lower(s: Seq<char>) -> Seq<char> {
    s.map_values(|c: char| spec_lower_char(c))
}

pub fn to_lowercase(s: &str) -> (r: String)
    ensures
        r@ == spec_lower(s@),
{
    let n: usize = s.unicode_len();
    let mut out: String = String::new();
    let mut i: usize = 0;
    while i < n
        invariant
            n == s@.len(),
            i <= n,
            out@ == spec_lower(s@.subrange(0, i as int)),
        decreases n - i,
    {
        let c = s.get_char(i);
        push_char(&mut out, lower_char(c));
        proof {
            assert(s@.subrange(0, i + 1).map_values(|c: char| spec_lower_char(c)) =~= s@.subrange(
                0,
                i as int,
            ).map_values(|c: char| spec_lower_char(c)).push(spec_lower_char(s@[i as int])));
        }
        i = i + 1;
    }
    proof {
        assert(s@.subrange(0, n as int) =~= s@);
    }
    out
}

/// Equality of two string slices, decided character by character.
pub fn str_eq(a: &str, b: &str) -> (r: bool)
    ensures
        r == (a@ == b@),
{
    let an: usize = a.unicode_len();
    let bn: usize = b.unicode_len();
    if an != bn {
        return false;
    }
    let mut i: usize = 0;
    while i < an
        invariant
            an == a@.len(),
            an == b@.len(),
            i <= an,
            forall|j: int| 0 <= j < i ==> a@[j] == b@[j],
        decreases an - i,
    {
        if a.get_char(i) != b.get_char(i) {
            return false;
        }
        i = i + 1;
    }
    proof {
        assert(a@ =~= b@);
    }
    true
}

/// `p` occurs in `s` starting at position `i`.
pub open spec fn spec_matches_at(s: Seq<char>, p: Seq<char>, i: int) -> bool {
    0 <= i && i + p.len() <= s.len() && s.subrange(i, i + p.len()) == p
}

/// `p` is a prefix of `s`.
pub open spec fn spec_starts_with(s: Seq<char>, p: Seq<char>) -> bool {
    spec_matches_at(s, p, 0)
}

/// `p` is a suffix of `s`.
pub open spec fn spec_ends_with(s: Seq<char>, p: Seq<char>) -> bool {
    spec_matches_at(s, p, s.len() - p.len())
}

/// `p` occurs somewhere in `s`.
pub open spec fn spec_contains(s: Seq<char>, p: Seq<char>) -> bool {
    exists|i: int| spec_matches_at(s, p, i)
}

/// Whether `p` occurs in `s` at position `i`, decided character by character.
pub fn matches_at(s: &str, p: &str, i: usize) -> (r: bool)
    requires
        i <= s@.len(),
    ensures
        r == spec_matches_at(s@, p@, i as int),
{
    let sn: usize = s.unicode_len();
    let pn: usize = p.unicode_len();
    if pn > sn - i {
        return false;
    }
    let mut j: usize = 0;
    while j < pn
        invariant
            sn == s@.len(),
            pn == p@.len(),
            i + pn <= sn,
            j <= pn,
            forall|k: int| 0 <= k < j ==> s@[i + k] == p@[k],
        decreases pn - j,
    {
        if s.get_char(i + j) != p.get_char(j) {
            proof {
                assert(s@.subrange(i as int, i + p@.len())[j as int] == s@[i + j]);
            }
            return false;
        }
        j = j + 1;
    }
    proof {
        assert(s@.subrange(i as int, i + p@.len()) =~= p@);
    }
    true
}

pub fn starts_with(s: &str, p: &str) -> (r: bool)
    ensures
        r == spec_starts_with(s@, p@),
{
    matches_at(s, p, 0)
}

pub fn ends_with(s: &str, p: &str) -> (r: bool)
    ensures
        r == spec_ends_with(s@, p@),
{
    let sn: usize = s.unicode_len();
    let pn: usize = p.unicode_len();
    if pn > sn {
        return false;
    }
    matches_at(s, p, sn - pn)
}

pub fn contains_sub(s: &str, p: &str) -> (r: bool)
    ensures
        r == spec_contains(s@, p@),
{
    let sn: usize = s.unicode_len();
    let pn: usize = p.unicode_len();
    if pn > sn {
        return false;
    }
    if pn == 0 {
        proof {
            assert(s@.subrange(0, 0) =~= p@);
            assert(spec_matches_at(s@, p@, 0));
        }
        return true;
    }
    let mut i: usize = 0;
    while i <= sn - pn
        invariant
            sn == s@.len(),
            pn == p@.len(),
            1 <= pn <= sn,
            i <= sn,
            forall|k: int| 0 <= k < i ==> !spec_matches_at(s@, p@, k),
        decreases sn - i,
    {
        if matches_at(s, p, i) {
            return true;
        }
        i = i + 1;
    }
    false
}

/// Index of the first non-space character, or the length if all are spaces.
pub open spec fn spec_trim_start_idx(s: Seq<char>) -> int
    decreases s.len(),
{
    if s.len() == 0 {
        0
    } else if spec_is_space(s[0]) {
        1 + spec_trim_start_idx(s.drop_first())
    } else {
        0
    }
}

/// One past the last non-space character, or 0 if all are spaces.
pub open spec fn spec_trim_end_idx(s: Seq<char>) -> int
    decreases s.len(),
{
    if s.len() == 0 {
        0
    } else if spec_is_space(s[s.len() - 1]) {
        spec_trim_end_idx(s.drop_last())
    } else {
        s.len() as int
    }
}

/// The trimmed content of a line.
pub open spec fn spec_trim(s: Seq<char>) -> Seq<char> {
    if spec_trim_start_idx(s) <= spec_trim_end_idx(s) {
        s.subrange(spec_trim_start_idx(s), spec_trim_end_idx(s))
    } else {
        Seq::empty()
    }
}

pub proof fn lemma_trim_start_idx_bounds(s: Seq<char>)
    ensures
        0 <= spec_trim_start_idx(s) <= s.len(),
        forall|j: int| 0 <= j < spec_trim_start_idx(s) ==> spec_is_space(s[j]),
        spec_trim_start_idx(s) < s.len() ==> !spec_is_space(s[spec_trim_start_idx(s)]),
    decreases s.len(),
{
    if s.len() > 0 && spec_is_space(s[0]) {
        lemma_trim_start_idx_bounds(s.drop_first());
        assert forall|j: int| 0 <= j < spec_trim_start_idx(s) implies spec_is_space(s[j]) by {
            if j > 0 {
                assert(s.drop_first()[j - 1] == s[j]);
            }
        }
    }
}

pub proof fn lemma_trim_end_idx_bounds(s: Seq<char>)
    ensures
        0 <= spec_trim_end_idx(s) <= s.len(),
        forall|j: int| spec_trim_end_idx(s) <= j < s.len() ==> spec_is_space(s[j]),
        spec_trim_end_idx(s) > 0 ==> !spec_is_space(s[spec_trim_end_idx(s) - 1]),
    decreases s.len(),
{
    if s.len() > 0 && spec_is_space(s[s.len() - 1]) {
        lemma_trim_end_idx_bounds(s.drop_last());
        assert forall|j: int| spec_trim_end_idx(s) <= j < s.len() implies spec_is_space(s[j]) by {
            if j < s.len() - 1 {
                assert(s.drop_last()[j] == s[j]);
            }
        }
    }
}

/// Trim spaces from both ends of a string slice.
pub fn trim(s: &str) -> (r: &str)
    ensures
        r@ == spec_trim(s@),
{
    proof {
        lemma_trim_start_idx_bounds(s@);
        lemma_trim_end_idx_bounds(s@);
    }
    let n: usize = s.unicode_len();
    let mut lo: usize = 0;
    while lo < n && is_space(s.get_char(lo))
        invariant
            n == s@.len(),
            lo <= n,
            forall|j: int| 0 <= j < lo ==> spec_is_space(s@[j]),
            lo <= spec_trim_start_idx(s@),
        decreases n - lo,
    {
        proof {
            lemma_trim_start_idx_bounds(s@);
            if lo + 1 > spec_trim_start_idx(s@) {
                assert(spec_is_space(s@[spec_trim_start_idx(s@)]));
            }
        }
        lo = lo + 1;
    }
    proof {
        lemma_trim_start_idx_bounds(s@);
        assert(lo == spec_trim_start_idx(s@));
    }
    let mut hi: usize = n;
    while hi > lo && is_space(s.get_char(hi - 1))
        invariant
            n == s@.len(),
            lo <= hi <= n,
            lo == spec_trim_start_idx(s@),
            forall|j: int| hi <= j < n ==> spec_is_space(s@[j]),
            spec_trim_end_idx(s@) <= hi,
        decreases hi,
    {
        proof {
            lemma_trim_end_idx_bounds(s@);
            if hi - 1 < spec_trim_end_idx(s@) {
                assert(spec_is_space(s@[spec_trim_end_idx(s@) - 1]));
            }
        }
        hi = hi - 1;
    }
    proof {
        lemma_trim_end_idx_bounds(s@);
        if hi > lo {
            assert(hi == spec_trim_end_idx(s@));
        } else {
            assert(spec_trim_end_idx(s@) <= spec_trim_start_idx(s@));
            assert(spec_trim(s@) =~= s@.subrange(lo as int, hi as int));
        }
    }
    s.substring_char(lo, hi)
}

/// The trim-start index is pinned by its characterisation.
pub proof fn lemma_trim_start_at(s: Seq<char>, k: int)
    requires
        0 <= k <= s.len(),
        forall|j: int| 0 <= j < k ==> spec_is_space(#[trigger] s[j]),
        k < s.len() ==> !spec_is_space(s[k]),
    ensures
        spec_trim_start_idx(s) == k,
{
    lemma_trim_start_idx_bounds(s);
    let idx = spec_trim_start_idx(s);
    if idx < k {
        assert(spec_is_space(s[idx]));
        assert(!spec_is_space(s[idx]));
    } else if idx > k {
        assert(spec_is_space(s[k]));
    }
}

/// The trim-end index is pinned by its characterisation.
pub proof fn lemma_trim_end_at(s: Seq<char>, k: int)
    requires
        0 <= k <= s.len(),
        forall|j: int| k <= j < s.len() ==> spec_is_space(#[trigger] s[j]),
        k > 0 ==> !spec_is_space(s[k - 1]),
    ensures
        spec_trim_end_idx(s) == k,
{
    lemma_trim_end_idx_bounds(s);
    let idx = spec_trim_end_idx(s);
    if idx > k {
        assert(spec_is_space(s[idx - 1]));
        assert(!spec_is_space(s[idx - 1]));
    } else if idx < k {
        assert(spec_is_space(s[k - 1]));
    }
}

/// Trimming whitespace-wrapped content yields exactly the content.
pub proof fn lemma_trim_sandwich(ws: Seq<char>, body: Seq<char>)
    requires
        forall|j: int| 0 <= j < ws.len() ==> spec_is_space(#[trigger] ws[j]),
        body.len() > 0,
        !spec_is_space(body[0]),
        !spec_is_space(body[body.len() - 1]),
    ensures
        spec_trim(ws + body) == body,
        spec_trim_start_idx(ws + body) == ws.len(),
{
    let s = ws + body;
    assert forall|j: int| 0 <= j < ws.len() implies spec_is_space(#[trigger] s[j]) by {
        assert(s[j] == ws[j]);
    }
    assert(s[ws.len() as int] == body[0]);
    lemma_trim_start_at(s, ws.len() as int);
    assert(s[s.len() - 1] == body[body.len() - 1]);
    lemma_trim_end_at(s, s.len() as int);
    assert(s.subrange(ws.len() as int, s.len() as int) =~= body);
}

/// Finding a character that first occurs after a clean prefix.
pub proof fn lemma_find_char_concat(a: Seq<char>, b: Seq<char>, c: char)
    requires
        forall|j: int| 0 <= j < a.len() ==> #[trigger] a[j] != c,
        b.len() > 0,
        b[0] == c,
    ensures
        spec_find_char(a + b, c) == a.len(),
{
    lemma_find_char_bounds(a + b, c);
    let s = a + b;
    let idx = spec_find_char(s, c);
    assert(s[a.len() as int] == c);
    if idx < a.len() {
        assert(s[idx] == a[idx]);
        assert(s[idx] == c);
    } else if idx > a.len() {
        assert(s[a.len() as int] != c);
    }
}

/// Numeric value of a sequence of decimal digits.
pub open spec fn spec_digits_val(s: Seq<char>) -> nat
    decreases s.len(),
{
    if s.len() == 0 {
        0
    } else {
        spec_digits_val(s.drop_last()) * 10 + (s[s.len() - 1] as nat - ('0' as nat)) as nat
    }
}

/// All characters are decimal digits.
pub open spec fn spec_all_digits(s: Seq<char>) -> bool {
    forall|i: int| 0 <= i < s.len() ==> spec_is_digit(s[i])
}

/// Parse a decimal `u64`: succeeds exactly on non-empty all-digit strings
/// whose value fits.
pub fn parse_u64(s: &str) -> (r: Option<u64>)
    ensures
        match r {
            Some(v) => s@.len() > 0 && spec_all_digits(s@) && spec_digits_val(s@) == v,
            None => s@.len() == 0 || !spec_all_digits(s@) || spec_digits_val(s@) > u64::MAX,
        },
{
    let n: usize = s.unicode_len();
    if n == 0 {
        return None;
    }
    let mut acc: u64 = 0;
    let mut i: usize = 0;
    while i < n
        invariant
            n == s@.len(),
            i <= n,
            spec_all_digits(s@.subrange(0, i as int)),
            acc == spec_digits_val(s@.subrange(0, i as int)),
        decreases n - i,
    {
        let c = s.get_char(i);
        if !is_digit_char(c) {
            return None;
        }
        let d: u64 = (c as u8 - 48) as u64;
        if acc > (u64::MAX - d) / 10 {
            // The value no longer fits in a u64.
            proof {
                lemma_digits_val_monotone(s@, i + 1);
                assert(s@.subrange(0, i + 1).drop_last() =~= s@.subrange(0, i as int));
                assert(spec_digits_val(s@.subrange(0, i + 1)) == acc * 10 + d);
            }
            return None;
        }
        proof {
            assert(s@.subrange(0, i + 1).drop_last() =~= s@.subrange(0, i as int));
        }
        acc = acc * 10 + d;
        i = i + 1;
    }
    proof {
        assert(s@.subrange(0, n as int) =~= s@);
    }
    Some(acc)
}

/// Digit values only grow as more digits are appended.
proof fn lemma_digits_val_monotone(s: Seq<char>, i: int)
    requires
        0 <= i <= s.len(),
    ensures
        spec_digits_val(s.subrange(0, i)) <= spec_digits_val(s),
    decreases s.len() - i,
{
    if i < s.len() {
        lemma_digits_val_monotone(s, i + 1);
        assert(s.subrange(0, i + 1).drop_last() =~= s.subrange(0, i));
        assert(spec_digits_val(s.subrange(0, i)) <= spec_digits_val(s.subrange(0, i + 1)));
    } else {
        assert(s.subrange(0, i) =~= s);
    }
}

/// Parse a decimal `u32` by the same rule.
pub fn parse_u32(s: &str) -> (r: Option<u32>)
    ensures
        match r {
            Some(v) => s@.len() > 0 && spec_all_digits(s@) && spec_digits_val(s@) == v,
            None => s@.len() == 0 || !spec_all_digits(s@) || spec_digits_val(s@) > u32::MAX,
        },
{
    match parse_u64(s) {
        Some(v) => if v <= u32::MAX as u64 {
            Some(v as u32)
        } else {
            None
        },
        None => {
            proof {
                if !(s@.len() == 0 || !spec_all_digits(s@)) {
                    assert(spec_digits_val(s@) > u64::MAX);
                }
            }
            None
        },
    }
}

/// Decimal representation of a natural number.
pub open spec fn spec_dec(n: nat) -> Seq<char>
    decreases n,
{
    if n < 10 {
        seq![spec_digit_char(n)]
    } else {
        spec_dec(n / 10).push(spec_digit_char(n % 10))
    }
}

pub open spec fn spec_digit_char(d: nat) -> char {
    (48 + d) as u8 as char
}

/// Render a `u64` in decimal.
pub fn u64_to_string(n: u64) -> (r: String)
    ensures
        r@ == spec_dec(n as nat),
        r@.len() > 0,
        spec_all_digits(r@),
        spec_digits_val(r@) == n,
{
    proof {
        lemma_spec_dec_digits(n as nat);
    }
    let mut digits: Vec<char> = Vec::new();
    let mut m: u64 = n;
    // Collect digits least-significant first.
    while m >= 10
        invariant
            spec_dec(n as nat) == spec_dec(m as nat) + digits@.reverse(),
        decreases m,
    {
        let d: u8 = (m % 10) as u8;
        proof {
            assert(spec_dec(m as nat) == spec_dec((m / 10) as nat).push(
                spec_digit_char((m % 10) as nat),
            ));
            assert(spec_dec((m / 10) as nat).push(spec_digit_char((m % 10) as nat))
                + digits@.reverse() =~= spec_dec((m / 10) as nat) + digits@.push(
                spec_digit_char((m % 10) as nat),
            ).reverse());
        }
        digits.push((48 + d) as char);
        m = m / 10;
    }
    let mut out: String = String::new();
    push_char(&mut out, (48 + (m % 10) as u8) as char);
    proof {
        assert(out@ =~= spec_dec(m as nat));
    }
    let mut i: usize = digits.len();
    while i > 0
        invariant
            i <= digits@.len(),
            out@ == spec_dec(m as nat) + digits@.reverse().subrange(
                0,
                digits@.len() - i,
            ),
        decreases i,
    {
        push_char(&mut out, digits[i - 1]);
        proof {
            assert(digits@.reverse()[digits@.len() - i] == digits@[i - 1]);
            assert(out@ =~= spec_dec(m as nat) + digits@.reverse().subrange(
                0,
                digits@.len() - (i - 1),
            ));
        }
        i = i - 1;
    }
    proof {
        assert(digits@.reverse().subrange(0, digits@.len() as int) =~= digits@.reverse());
        assert(out@ =~= spec_dec(n as nat));
        lemma_spec_dec_val(n as nat);
    }
    out
}

/// Every rendered decimal is a non-empty digit string.
pub proof fn lemma_spec_dec_digits(n: nat)
    ensures
        spec_dec(n).len() > 0,
        spec_all_digits(spec_dec(n)),
    decreases n,
{
    if n >= 10 {
        lemma_spec_dec_digits(n / 10);
    }
}

/// Rendering then reading a decimal gives the number back.
proof fn lemma_spec_dec_val(n: nat)
    ensures
        spec_digits_val(spec_dec(n)) == n,
    decreases n,
{
    assert(spec_digits_val(Seq::<char>::empty()) == 0);
    if n < 10 {
        assert(spec_digit_char(n) as nat == 48 + n);
        assert(spec_dec(n).drop_last() =~= Seq::<char>::empty());
        assert(spec_digits_val(spec_dec(n)) == spec_digits_val(Seq::<char>::empty()) * 10 + n);
    } else {
        lemma_spec_dec_val(n / 10);
        assert(spec_digit_char(n % 10) as nat == 48 + n % 10);
        assert(spec_dec(n).drop_last() =~= spec_dec(n / 10));
        assert(spec_digits_val(spec_dec(n)) == spec_digits_val(spec_dec(n / 10)) * 10 + n % 10);
    }
}

/// Render a `u32` in decimal.
pub fn u32_to_string(n: u32) -> (r: String)
    ensures
        r@ == spec_dec(n as nat),
        r@.len() > 0,
        spec_all_digits(r@),
        spec_digits_val(r@) == n,
{
    u64_to_string(n as u64)
}

/// Index of the first occurrence of `c` in `s`, or the length if absent.
pub open spec fn spec_find_char(s: Seq<char>, c: char) -> int
    decreases s.len(),
{
    if s.len() == 0 {
        0
    } else if s[0] == c {
        0
    } else {
        1 + spec_find_char(s.drop_first(), c)
    }
}

pub proof fn lemma_find_char_bounds(s: Seq<char>, c: char)
    ensures
        0 <= spec_find_char(s, c) <= s.len(),
        spec_find_char(s, c) < s.len() ==> s[spec_find_char(s, c)] == c,
        forall|j: int| 0 <= j < spec_find_char(s, c) ==> s[j] != c,
    decreases s.len(),
{
    if s.len() > 0 && s[0] != c {
        lemma_find_char_bounds(s.drop_first(), c);
        assert forall|j: int| 0 <= j < spec_find_char(s, c) implies s[j] != c by {
            if j > 0 {
                assert(s.drop_first()[j - 1] == s[j]);
            }
        }
    }
}

/// Find the first occurrence of a character.
pub fn find_char(s: &str, c: char) -> (r: usize)
    ensures
        r == spec_find_char(s@, c),
{
    proof {
        lemma_find_char_bounds(s@, c);
    }
    let n: usize = s.unicode_len();
    let mut i: usize = 0;
    while i < n
        invariant
            n == s@.len(),
            i <= n,
            forall|j: int| 0 <= j < i ==> s@[j] != c,
            i <= spec_find_char(s@, c),
        decreases n - i,
    {
        proof {
            lemma_find_char_bounds(s@, c);
        }
        if s.get_char(i) == c {
            proof {
                if i < spec_find_char(s@, c) {
                    assert(s@[i as int] != c);
                }
            }
            return i;
        }
        proof {
            if i + 1 > spec_find_char(s@, c) {
                assert(s@[spec_find_char(s@, c)] == c);
            }
        }
        i = i + 1;
    }
    proof {
        lemma_find_char_bounds(s@, c);
        if spec_find_char(s@, c) < n {
            assert(s@[spec_find_char(s@, c)] == c);
        }
    }
    n
}

/// Copy a vector of strings.
pub fn clone_string_vec(v: &Vec<String>) -> (r: Vec<String>)
    ensures
        r@ == v@,
{
    let mut out: Vec<String> = Vec::new();
    let mut i: usize = 0;
    while i < v.len()
        invariant
            i <= v@.len(),
            out@ == v@.subrange(0, i as int),
        decreases v@.len() - i,
    {
        out.push(v[i].clone());
        proof {
            assert(out@ =~= v@.subrange(0, i + 1));
        }
        i = i + 1;
    }
    proof {
        assert(v@.subrange(0, v@.len() as int) =~= v@);
    }
    out
}

/// The lines of a text, split at every newline character.  A text always has
/// at least one (possibly empty) line; a trailing newline yields a final
/// empty line, so that `spec_join_lines` restores the text exactly.
pub open spec fn spec_split_lines(s: Seq<char>) -> Seq<Seq<char>>
    decreases s.len(),
{
    if s.len() == 0 {
        seq![Seq::<char>::empty()]
    } else if s[0] == '\n' {
        seq![Seq::<char>::empty()] + spec_split_lines(s.drop_first())
    } else {
        let rest = spec_split_lines(s.drop_first());
        seq![seq![s[0]] + rest[0]] + rest.drop_first()
    }
}

/// The text with the given lines, a newline between each pair.
pub open spec fn spec_join_lines(ls: Seq<Seq<char>>) -> Seq<char>
    decreases ls.len(),
{
    if ls.len() == 0 {
        Seq::empty()
    } else if ls.len() == 1 {
        ls[0]
    } else {
        ls[0].push('\n') + spec_join_lines(ls.drop_first())
    }
}

pub proof fn lemma_split_lines_nonempty(s: Seq<char>)
    ensures
        spec_split_lines(s).len() >= 1,
    decreases s.len(),
{
    if s.len() > 0 {
        lemma_split_lines_nonempty(s.drop_first())
    }
}

/// Joining the split lines restores the text byte for byte.
pub proof fn lemma_join_split_lines(s: Seq<char>)
    ensures
        spec_join_lines(spec_split_lines(s)) == s,
    decreases s.len(),
{
    if s.len() == 0 {
        assert(spec_join_lines(spec_split_lines(s)) =~= s);
    } else if s[0] == '\n' {
        lemma_join_split_lines(s.drop_first());
        lemma_split_lines_nonempty(s.drop_first());
        let ls = seq![Seq::<char>::empty()] + spec_split_lines(s.drop_first());
        assert(ls.drop_first() =~= spec_split_lines(s.drop_first()));
        assert(ls[0].push('\n') + spec_join_lines(ls.drop_first()) =~= s);
    } else {
        lemma_join_split_lines(s.drop_first());
        lemma_split_lines_nonempty(s.drop_first());
        let rest = spec_split_lines(s.drop_first());
        let ls = seq![seq![s[0]] + rest[0]] + rest.drop_first();
        if rest.len() == 1 {
            assert(ls.len() == 1);
            assert(ls[0] =~= s);
        } else {
            assert(ls.drop_first() =~= rest.drop_first());
            assert(spec_join_lines(rest) == rest[0].push('\n') + spec_join_lines(
                rest.drop_first(),
            ));
            assert(ls[0].push('\n') + spec_join_lines(rest.drop_first()) =~= seq![s[0]] + (
            rest[0].push('\n') + spec_join_lines(rest.drop_first())));
            assert(seq![s[0]] + spec_join_lines(rest) =~= s);
        }
    }
}

/// Splitting at the first newline: everything before it is the first line.
proof fn lemma_split_lines_first(s: Seq<char>, i: int)
    requires
        0 <= i <= s.len(),
        forall|j: int| 0 <= j < i ==> s[j] != '\n',
        i == s.len() || s[i] == '\n',
    ensures
        i == s.len() ==> spec_split_lines(s) =~= seq![s],
        i < s.len() ==> spec_split_lines(s) =~= seq![s.subrange(0, i)] + spec_split_lines(
            s.subrange(i + 1, s.len() as int),
        ),
    decreases s.len(),
{
    if s.len() == 0 {
        assert(s =~= Seq::<char>::empty());
        assert(spec_split_lines(s) =~= seq![s]);
    } else if s[0] == '\n' {
        assert(i == 0);
        assert(s.drop_first() =~= s.subrange(1, s.len() as int));
        assert(s.subrange(0, 0) =~= Seq::<char>::empty());
    } else {
        assert(i > 0);
        lemma_split_lines_first(s.drop_first(), i - 1);
        lemma_split_lines_nonempty(s.drop_first());
        let rest = spec_split_lines(s.drop_first());
        if i == s.len() {
            assert(rest =~= seq![s.drop_first()]);
            assert(seq![s[0]] + rest[0] =~= s);
            assert(spec_split_lines(s) =~= seq![s]);
        } else {
            assert(rest =~= seq![s.drop_first().subrange(0, i - 1)] + spec_split_lines(
                s.drop_first().subrange(i, s.len() - 1),
            ));
            assert(s.drop_first().subrange(0, i - 1) =~= s.subrange(1, i));
            assert(s.drop_first().subrange(i, s.len() - 1) =~= s.subrange(
                i + 1,
                s.len() as int,
            ));
            assert(seq![s[0]] + rest[0] =~= s.subrange(0, i));
            assert(rest.drop_first() =~= spec_split_lines(s.subrange(i + 1, s.len() as int)));
        }
    }
}

/// Split a text into its lines.
pub fn split_lines(s: &str) -> (r: Vec<String>)
    ensures
        r.deep_view() == spec_split_lines(s@),
        r@.len() >= 1,
{
    let n: usize = s.unicode_len();
    let mut out: Vec<String> = Vec::new();
    let mut start: usize = 0;
    let mut i: usize = 0;
    proof {
        assert(out.deep_view() =~= Seq::<Seq<char>>::empty());
        assert(s@.subrange(0, n as int) =~= s@);
        assert(out.deep_view() + spec_split_lines(s@) =~= spec_split_lines(s@));
    }
    while i < n
        invariant
            n == s@.len(),
            start <= i <= n,
            forall|j: int| start <= j < i ==> s@[j] != '\n',
            spec_split_lines(s@) == out.deep_view() + spec_split_lines(
                s@.subrange(start as int, n as int),
            ),
        decreases n - i,
    {
        if s.get_char(i) == '\n' {
            let line = s.substring_char(start, i);
            let ghost tail = s@.subrange(start as int, n as int);
            out.push(line.to_owned());
            proof {
                lemma_split_lines_first(tail, i - start);
                assert(tail.subrange(0, i - start) =~= s@.subrange(start as int, i as int));
                assert(tail.subrange(i - start + 1, tail.len() as int) =~= s@.subrange(
                    i + 1,
                    n as int,
                ));
                assert(out.deep_view() =~= out.deep_view().subrange(
                    0,
                    out.deep_view().len() - 1,
                ).push(s@.subrange(start as int, i as int)));
                assert(spec_split_lines(s@) =~= out.deep_view() + spec_split_lines(
                    s@.subrange(i + 1, n as int),
                ));
            }
            start = i + 1;
        }
        i = i + 1;
    }
    let last = s.substring_char(start, n);
    let ghost tail = s@.subrange(start as int, n as int);
    out.push(last.to_owned());
    proof {
        lemma_split_lines_first(tail, n - start);
        assert(out.deep_view() =~= out.deep_view().subrange(0, out.deep_view().len() - 1).push(
            tail,
        ));
        assert(spec_split_lines(s@) =~= out.deep_view());
    }
    out
}

/// A sequence of characters free of newlines.
pub open spec fn spec_no_nl(l: Seq<char>) -> bool {
    forall|j: int| 0 <= j < l.len() ==> #[trigger] l[j] != '\n'
}

/// Every line of every split is free of newlines.
pub open spec fn spec_lines_no_nl(ls: Seq<Seq<char>>) -> bool {
    forall|k: int| 0 <= k < ls.len() ==> spec_no_nl(#[trigger] ls[k])
}

/// Splitting never leaves a newline inside a line.
pub proof fn lemma_split_lines_no_nl(s: Seq<char>)
    ensures
        spec_lines_no_nl(spec_split_lines(s)),
    decreases s.len(),
{
    if s.len() == 0 {
        assert(spec_no_nl(Seq::<char>::empty()));
        assert forall|k: int|
            0 <= k < spec_split_lines(s).len() implies spec_no_nl(
            #[trigger] spec_split_lines(s)[k],
        ) by {}
    } else if s[0] == '\n' {
        lemma_split_lines_no_nl(s.drop_first());
        let ls = spec_split_lines(s);
        assert forall|k: int| 0 <= k < ls.len() implies spec_no_nl(#[trigger] ls[k]) by {
            if k == 0 {
                assert(ls[0] =~= Seq::<char>::empty());
            } else {
                assert(ls[k] == spec_split_lines(s.drop_first())[k - 1]);
            }
        }
    } else {
        lemma_split_lines_no_nl(s.drop_first());
        lemma_split_lines_nonempty(s.drop_first());
        let rest = spec_split_lines(s.drop_first());
        let ls = spec_split_lines(s);
        assert forall|k: int| 0 <= k < ls.len() implies spec_no_nl(#[trigger] ls[k]) by {
            if k == 0 {
                assert(ls[0] == seq![s[0]] + rest[0]);
                assert(spec_no_nl(rest[0]));
                assert forall|j: int| 0 <= j < ls[0].len() implies #[trigger] ls[0][j]
                    != '\n' by {
                    if j > 0 {
                        assert(ls[0][j] == rest[0][j - 1]);
                    }
                }
            } else {
                assert(ls[k] == rest.drop_first()[k - 1]);
                assert(rest.drop_first()[k - 1] == rest[k]);
            }
        }
    }
}

/// Splitting a newline-free join restores the lines exactly.
pub proof fn lemma_join_then_split(ls: Seq<Seq<char>>)
    requires
        ls.len() >= 1,
        spec_lines_no_nl(ls),
    ensures
        spec_split_lines(spec_join_lines(ls)) == ls,
    decreases ls.len(),
{
    let s = spec_join_lines(ls);
    if ls.len() == 1 {
        assert(s == ls[0]);
        assert(spec_no_nl(ls[0]));
        lemma_split_lines_first(s, s.len() as int);
        assert(spec_split_lines(s) =~= ls);
    } else {
        assert(s == ls[0].push('\n') + spec_join_lines(ls.drop_first()));
        let k: int = ls[0].len() as int;
        assert(spec_no_nl(ls[0]));
        assert forall|j: int| 0 <= j < k implies s[j] != '\n' by {
            assert(s[j] == ls[0][j]);
        }
        assert(s[k] == '\n');
        lemma_split_lines_first(s, k);
        assert(s.subrange(0, k) =~= ls[0]);
        assert(s.subrange(k + 1, s.len() as int) =~= spec_join_lines(ls.drop_first()));
        assert forall|m: int|
            0 <= m < ls.drop_first().len() implies spec_no_nl(
            #[trigger] ls.drop_first()[m],
        ) by {
            assert(ls.drop_first()[m] == ls[m + 1]);
        }
        lemma_join_then_split(ls.drop_first());
        assert(spec_split_lines(s) =~= seq![ls[0]] + spec_split_lines(
            spec_join_lines(ls.drop_first()),
        ));
        assert(spec_split_lines(s) =~= ls);
    }
}

/// Appending one more line to a join adds one newline and the line.
proof fn lemma_join_lines_push(ls: Seq<Seq<char>>, l: Seq<char>)
    ensures
        ls.len() == 0 ==> spec_join_lines(ls.push(l)) == l,
        ls.len() > 0 ==> spec_join_lines(ls.push(l)) == spec_join_lines(ls).push('\n') + l,
    decreases ls.len(),
{
    if ls.len() == 0 {
        assert(ls.push(l)[0] =~= l);
    } else if ls.len() == 1 {
        assert(ls.push(l).drop_first() =~= seq![l]);
        assert(spec_join_lines(seq![l]) == l);
        assert(spec_join_lines(ls.push(l)) == ls[0].push('\n') + l);
    } else {
        lemma_join_lines_push(ls.drop_first(), l);
        assert(ls.push(l).drop_first() =~= ls.drop_first().push(l));
        assert(spec_join_lines(ls.push(l)) == ls[0].push('\n') + (spec_join_lines(
            ls.drop_first(),
        ).push('\n') + l));
        assert(ls[0].push('\n') + (spec_join_lines(ls.drop_first()).push('\n') + l) =~= (ls[0].push(
            '\n',
        ) + spec_join_lines(ls.drop_first())).push('\n') + l);
    }
}

/// Join lines with a newline between each pair.
pub fn join_lines(v: &Vec<String>) -> (r: String)
    ensures
        r@ == spec_join_lines(v.deep_view()),
{
    let mut out: String = String::new();
    let mut i: usize = 0;
    while i < v.len()
        invariant
            i <= v@.len(),
            v.deep_view().len() == v@.len(),
            out@ == spec_join_lines(v.deep_view().subrange(0, i as int)),
        decreases v@.len() - i,
    {
        if i > 0 {
            push_char(&mut out, '\n');
        }
        out.append(v[i].as_str());
        proof {
            assert(v.deep_view()[i as int] == v@[i as int]@);
            lemma_join_lines_push(v.deep_view().subrange(0, i as int), v.deep_view()[i as int]);
            assert(v.deep_view().subrange(0, i + 1) =~= v.deep_view().subrange(0, i as int).push(
                v.deep_view()[i as int],
            ));
        }
        i = i + 1;
    }
    proof {
        assert(v.deep_view().subrange(0, v.deep_view().len() as int) =~= v.deep_view());
    }
    out
}

/// Replace every occurrence of `pat` (scanned left to right, non-empty) by
/// `rep`.
pub open spec fn spec_replace(s: Seq<char>, pat: Seq<char>, rep: Seq<char>) -> Seq<char>
    decreases s.len(),
{
    if pat.len() == 0 || s.len() < pat.len() {
        s
    } else if s.subrange(0, pat.len() as int) == pat {
        rep + spec_replace(s.skip(pat.len() as int), pat, rep)
    } else {
        seq![s[0]] + spec_replace(s.drop_first(), pat, rep)
    }
}

/// Replace every occurrence of a non-empty pattern, left to right.
pub fn replace_str(s: &str, pat: &str, rep: &str) -> (r: String)
    requires
        pat@.len() > 0,
    ensures
        r@ == spec_replace(s@, pat@, rep@),
{
    let n: usize = s.unicode_len();
    let pn: usize = pat.unicode_len();
    let mut out: String = String::new();
    let mut i: usize = 0;
    proof {
        assert(s@.subrange(0, n as int) =~= s@);
        assert(out@ + spec_replace(s@, pat@, rep@) =~= spec_replace(s@, pat@, rep@));
    }
    while i < n
        invariant
            n == s@.len(),
            pn == pat@.len(),
            pn > 0,
            i <= n,
            spec_replace(s@, pat@, rep@) == out@ + spec_replace(
                s@.subrange(i as int, n as int),
                pat@,
                rep@,
            ),
        decreases n - i,
    {
        let ghost tail = s@.subrange(i as int, n as int);
        if matches_at(s, pat, i) {
            out.append(rep);
            proof {
                assert(tail.subrange(0, pn as int) =~= s@.subrange(i as int, i + pn));
                assert(tail.skip(pn as int) =~= s@.subrange(i + pn, n as int));
                assert(spec_replace(tail, pat@, rep@) == rep@ + spec_replace(
                    s@.subrange(i + pn, n as int),
                    pat@,
                    rep@,
                ));
            }
            i = i + pn;
        } else {
            push_char(&mut out, s.get_char(i));
            proof {
                if tail.len() >= pn {
                    assert(tail.subrange(0, pn as int) =~= s@.subrange(i as int, i + pn));
                    assert(tail.subrange(0, pn as int) != pat@);
                }
                assert(tail.drop_first() =~= s@.subrange(i + 1, n as int));
                assert(tail[0] == s@[i as int]);
                if tail.len() < pn {
                    assert(s@.subrange(i + 1, n as int).len() < pn);
                    assert(spec_replace(tail, pat@, rep@) == tail);
                    assert(tail =~= seq![tail[0]] + tail.drop_first());
                }
                assert(spec_replace(tail, pat@, rep@) == seq![s@[i as int]] + spec_replace(
                    s@.subrange(i + 1, n as int),
                    pat@,
                    rep@,
                ));
            }
            i = i + 1;
        }
    }
    proof {
        assert(s@.subrange(0, n as int) =~= s@);
        assert(s@.subrange(n as int, n as int) =~= Seq::<char>::empty());
        assert(spec_replace(Seq::<char>::empty(), pat@, rep@) =~= Seq::<char>::empty());
        assert(spec_replace(s@, pat@, rep@) =~= out@);
    }
    out
}

} // verus!
