//! The preference-document store: a structural reader and patcher for the
//! brace-delimited per-user document that holds, among many unrelated blocks,
//! one launch-options field per application.
//!
//! The document is never re-serialised whole: a mutation splices one line
//! region and leaves every other byte as it was.

use vstd::prelude::*;

use crate::text::{
    find_char, is_space, join_lines, push_char, spec_dec, spec_find_char, spec_is_space,
    spec_join_lines, spec_lower, spec_split_lines, spec_starts_with, spec_trim,
    spec_trim_start_idx, split_lines, starts_with, str_eq, to_lowercase, trim, u32_to_string,
};

verus! {

/// A standalone quoted key (a section name or application identifier):
/// the text between the first quote pair, provided nothing but an opening
/// brace follows it.
pub open spec fn spec_parse_quoted_key(line: Seq<char>) -> Option<Seq<char>> {
    let t = spec_trim(line);
    if t.len() == 0 || t[0] != '"' {
        None
    } else {
        let rest = t.drop_first();
        let e = spec_find_char(rest, '"');
        if e == rest.len() {
            None
        } else {
            let after = spec_trim(rest.subrange(e + 1, rest.len() as int));
            if after.len() == 0 || after == "{"@ {
                Some(rest.subrange(0, e))
            } else {
                None
            }
        }
    }
}

/// Parse a standalone quoted key from a line.
pub fn parse_quoted_key<'a>(line: &'a str) -> (r: Option<&'a str>)
    ensures
        match r {
            Some(k) => spec_parse_quoted_key(line@) == Some(k@),
            None => spec_parse_quoted_key(line@) is None,
        },
{
    let t = trim(line);
    let tn: usize = t.unicode_len();
    if tn == 0 || t.get_char(0) != '"' {
        return None;
    }
    let rest = t.substring_char(1, tn);
    proof {
        assert(rest@ =~= t@.drop_first());
    }
    let rn: usize = rest.unicode_len();
    let e = find_char(rest, '"');
    if e == rn {
        return None;
    }
    proof {
        crate::text::lemma_find_char_bounds(rest@, '"');
    }
    let after_raw = rest.substring_char(e + 1, rn);
    proof {
        assert(after_raw@ =~= rest@.subrange(e + 1, rest@.len() as int));
    }
    let after = trim(after_raw);
    let an: usize = after.unicode_len();
    if an == 0 || str_eq(after, "{") {
        Some(rest.substring_char(0, e))
    } else {
        proof {
            reveal_strlit("{");
        }
        None
    }
}

/// The unescaping scan of a quoted value: a backslash before a quote or a
/// backslash escapes it; an unescaped quote ends the value.
pub open spec fn spec_scan_value(s: Seq<char>) -> Seq<char>
    decreases s.len(),
{
    if s.len() == 0 {
        Seq::empty()
    } else if s[0] == '\\' {
        if s.len() >= 2 && (s[1] == '"' || s[1] == '\\') {
            seq![s[1]] + spec_scan_value(s.skip(2))
        } else {
            seq!['\\'] + spec_scan_value(s.drop_first())
        }
    } else if s[0] == '"' {
        Seq::empty()
    } else {
        seq![s[0]] + spec_scan_value(s.drop_first())
    }
}

/// A quoted key/quoted value line: the key between the first quote pair,
/// then, after whitespace, a quote opening the value, whose text is
/// unescaped by `spec_scan_value`.
pub open spec fn spec_parse_key_value(line: Seq<char>) -> Option<(Seq<char>, Seq<char>)> {
    let t = spec_trim(line);
    if t.len() == 0 || t[0] != '"' {
        None
    } else {
        let rest = t.drop_first();
        let ke = spec_find_char(rest, '"');
        if ke == rest.len() {
            None
        } else {
            let key = rest.subrange(0, ke);
            let after = spec_trim(rest.subrange(ke + 1, rest.len() as int));
            if after.len() == 0 || after[0] != '"' {
                None
            } else {
                Some((key, spec_scan_value(after.drop_first())))
            }
        }
    }
}

/// Parse a key/value line.
pub fn parse_key_value<'a>(line: &'a str) -> (r: Option<(&'a str, String)>)
    ensures
        match r {
            Some(kv) => spec_parse_key_value(line@) == Some((kv.0@, kv.1@)),
            None => spec_parse_key_value(line@) is None,
        },
{
    let t = trim(line);
    let tn: usize = t.unicode_len();
    if tn == 0 || t.get_char(0) != '"' {
        return None;
    }
    let rest = t.substring_char(1, tn);
    proof {
        assert(rest@ =~= t@.drop_first());
    }
    let rn: usize = rest.unicode_len();
    let ke = find_char(rest, '"');
    if ke == rn {
        return None;
    }
    proof {
        crate::text::lemma_find_char_bounds(rest@, '"');
    }
    let key = rest.substring_char(0, ke);
    let after_raw = rest.substring_char(ke + 1, rn);
    proof {
        assert(after_raw@ =~= rest@.subrange(ke + 1, rest@.len() as int));
    }
    let after = trim(after_raw);
    let an: usize = after.unicode_len();
    if an == 0 || after.get_char(0) != '"' {
        return None;
    }
    let vr = after.substring_char(1, an);
    proof {
        assert(vr@ =~= after@.drop_first());
    }
    let vn: usize = vr.unicode_len();
    let mut value: String = String::new();
    let mut i: usize = 0;
    proof {
        assert(vr@.subrange(0, vn as int) =~= vr@);
        assert(value@ + spec_scan_value(vr@) =~= spec_scan_value(vr@));
    }
    let mut done: bool = false;
    while !done && i < vn
        invariant
            vn == vr@.len(),
            i <= vn,
            !done ==> spec_scan_value(vr@) == value@ + spec_scan_value(
                vr@.subrange(i as int, vn as int),
            ),
            done ==> value@ == spec_scan_value(vr@),
        decreases vn - i, (if done { 0int } else { 1int }),
    {
        let ghost tail = vr@.subrange(i as int, vn as int);
        let c = vr.get_char(i);
        if c == '\\' {
            if i + 1 < vn {
                let next = vr.get_char(i + 1);
                if next == '"' || next == '\\' {
                    push_char(&mut value, next);
                    proof {
                        assert(tail.skip(2) =~= vr@.subrange(i + 2, vn as int));
                        assert(seq![tail[1]] + spec_scan_value(tail.skip(2)) == spec_scan_value(
                            tail,
                        ));
                        assert(value@ + spec_scan_value(vr@.subrange(i + 2, vn as int))
                            =~= spec_scan_value(vr@));
                    }
                    i = i + 2;
                } else {
                    push_char(&mut value, '\\');
                    proof {
                        assert(tail.drop_first() =~= vr@.subrange(i + 1, vn as int));
                        assert(value@ + spec_scan_value(vr@.subrange(i + 1, vn as int))
                            =~= spec_scan_value(vr@));
                    }
                    i = i + 1;
                }
            } else {
                push_char(&mut value, '\\');
                proof {
                    assert(tail.drop_first() =~= vr@.subrange(i + 1, vn as int));
                    assert(value@ + spec_scan_value(vr@.subrange(i + 1, vn as int))
                        =~= spec_scan_value(vr@));
                }
                i = i + 1;
            }
        } else if c == '"' {
            proof {
                assert(spec_scan_value(tail) =~= Seq::<char>::empty());
                assert(value@ + spec_scan_value(tail) =~= value@);
            }
            done = true;
        } else {
            push_char(&mut value, c);
            proof {
                assert(tail.drop_first() =~= vr@.subrange(i + 1, vn as int));
                assert(value@ + spec_scan_value(vr@.subrange(i + 1, vn as int)) =~= spec_scan_value(
                    vr@,
                ));
            }
            i = i + 1;
        }
    }
    proof {
        if !done {
            assert(vr@.subrange(vn as int, vn as int) =~= Seq::<char>::empty());
            assert(spec_scan_value(Seq::<char>::empty()) =~= Seq::<char>::empty());
            assert(value@ =~= spec_scan_value(vr@));
        }
    }
    Some((key, value))
}

/// The leading whitespace of a line.
pub open spec fn spec_line_indent(line: Seq<char>) -> Seq<char> {
    line.subrange(0, spec_trim_start_idx(line))
}

/// The leading whitespace of a line.
pub fn get_line_indent<'a>(line: &'a str) -> (r: &'a str)
    ensures
        r@ == spec_line_indent(line@),
{
    proof {
        crate::text::lemma_trim_start_idx_bounds(line@);
    }
    let n: usize = line.unicode_len();
    let mut lo: usize = 0;
    while lo < n && is_space(line.get_char(lo))
        invariant
            n == line@.len(),
            lo <= n,
            forall|j: int| 0 <= j < lo ==> spec_is_space(line@[j]),
            lo <= spec_trim_start_idx(line@),
        decreases n - lo,
    {
        proof {
            crate::text::lemma_trim_start_idx_bounds(line@);
            if lo + 1 > spec_trim_start_idx(line@) {
                assert(spec_is_space(line@[spec_trim_start_idx(line@)]));
            }
        }
        lo = lo + 1;
    }
    proof {
        crate::text::lemma_trim_start_idx_bounds(line@);
        assert(lo == spec_trim_start_idx(line@));
    }
    line.substring_char(0, lo)
}

/// The indentation taken from a closing-brace line.
pub fn get_indent<'a>(line: &'a str) -> (r: &'a str)
    ensures
        r@ == spec_line_indent(line@),
{
    get_line_indent(line)
}

/// The escaped form of a value: backslashes and quotes get a backslash.
pub open spec fn spec_escape_vdf(s: Seq<char>) -> Seq<char>
    decreases s.len(),
{
    if s.len() == 0 {
        Seq::empty()
    } else if s[0] == '\\' {
        seq!['\\', '\\'] + spec_escape_vdf(s.drop_first())
    } else if s[0] == '"' {
        seq!['\\', '"'] + spec_escape_vdf(s.drop_first())
    } else {
        seq![s[0]] + spec_escape_vdf(s.drop_first())
    }
}

/// One indexed application: its identifier and its current launch options.
#[derive(Debug, Clone)]
pub struct AppEntry {
    pub app_id: u32,
    pub options: String,
}

/// The options bound to `k` in `s`, scanning from the most recent entry.
pub open spec fn spec_idx_lookup(s: Seq<AppEntry>, k: u32) -> Option<Seq<char>>
    decreases s.len(),
{
    if s.len() == 0 {
        None
    } else if s.last().app_id == k {
        Some(s.last().options@)
    } else {
        spec_idx_lookup(s.drop_last(), k)
    }
}

/// The mathematical map held by a sequence of index entries.
pub open spec fn idx_map_of(s: Seq<AppEntry>) -> Map<u32, Seq<char>> {
    Map::new(|k: u32| spec_idx_lookup(s, k) is Some, |k: u32| spec_idx_lookup(s, k)->0)
}

proof fn lemma_idx_push(s: Seq<AppEntry>, p: AppEntry)
    ensures
        idx_map_of(s.push(p)) == idx_map_of(s).insert(p.app_id, p.options@),
{
    assert(s.push(p).last() == p);
    assert(s.push(p).drop_last() =~= s);
    assert(idx_map_of(s.push(p)) =~= idx_map_of(s).insert(p.app_id, p.options@));
}

proof fn lemma_idx_lookup_update(s: Seq<AppEntry>, i: int, p: AppEntry, k: u32)
    requires
        0 <= i < s.len(),
        s[i].app_id == p.app_id,
        forall|j: int| 0 <= j < s.len() && j != i ==> s[j].app_id != p.app_id,
    ensures
        spec_idx_lookup(s.update(i, p), k) == (if k == p.app_id {
            Some(p.options@)
        } else {
            spec_idx_lookup(s, k)
        }),
    decreases s.len(),
{
    let t = s.update(i, p);
    if i == s.len() - 1 {
        assert(t.last() == p);
        assert(t.drop_last() =~= s.drop_last());
        if k != p.app_id {
            assert(s.last() == s[i]);
        }
    } else {
        assert(t.drop_last() =~= s.drop_last().update(i, p));
        assert(t.last() == s.last());
        assert(s.last().app_id != p.app_id);
        lemma_idx_lookup_update(s.drop_last(), i, p, k);
    }
}

proof fn lemma_idx_lookup_absent(s: Seq<AppEntry>, k: u32)
    requires
        forall|j: int| 0 <= j < s.len() ==> s[j].app_id != k,
    ensures
        spec_idx_lookup(s, k) is None,
    decreases s.len(),
{
    if s.len() > 0 {
        lemma_idx_lookup_absent(s.drop_last(), k);
    }
}

/// The index of launch options by application, keys unique.
#[derive(Debug, Clone)]
pub struct OptionsIndex {
    pub entries: Vec<AppEntry>,
}

impl OptionsIndex {
    /// Keys occur at most once.
    pub open spec fn wf(self) -> bool {
        forall|i: int, j: int|
            #![trigger self.entries@[i].app_id, self.entries@[j].app_id]
            0 <= i < j < self.entries@.len() ==> self.entries@[i].app_id
                != self.entries@[j].app_id
    }

    /// The mapping held.
    pub open spec fn as_map(self) -> Map<u32, Seq<char>> {
        idx_map_of(self.entries@)
    }

    pub fn new() -> (r: OptionsIndex)
        ensures
            r.wf(),
            r.as_map() == Map::<u32, Seq<char>>::empty(),
    {
        let r = OptionsIndex { entries: Vec::new() };
        proof {
            assert(r.as_map() =~= Map::<u32, Seq<char>>::empty());
        }
        r
    }

    /// Bind an application to its options, replacing any earlier binding.
    pub fn set(&mut self, app_id: u32, options: String)
        requires
            old(self).wf(),
        ensures
            final(self).wf(),
            final(self).as_map() == old(self).as_map().insert(app_id, options@),
    {
        let n: usize = self.entries.len();
        let mut i: usize = 0;
        while i < n
            invariant
                self == old(self),
                old(self).wf(),
                n == self.entries@.len(),
                i <= n,
                forall|j: int| 0 <= j < i ==> self.entries@[j].app_id != app_id,
            decreases n - i,
        {
            if self.entries[i].app_id == app_id {
                let ghost s = self.entries@;
                let p = AppEntry { app_id, options };
                let ghost pg = p;
                self.entries[i] = p;
                proof {
                    assert forall|j: int|
                        0 <= j < s.len() && j != i implies s[j].app_id != pg.app_id by {
                        if j >= i {
                            assert(old(self).entries@[i as int].app_id != old(
                                self,
                            ).entries@[j].app_id);
                        }
                    }
                    assert forall|k: u32| true implies #[trigger] spec_idx_lookup(
                        self.entries@,
                        k,
                    ) == (if k == pg.app_id {
                        Some(pg.options@)
                    } else {
                        spec_idx_lookup(s, k)
                    }) by {
                        lemma_idx_lookup_update(s, i as int, pg, k);
                    }
                    assert(self.as_map() =~= old(self).as_map().insert(app_id, pg.options@));
                    assert forall|a: int, b: int|
                        0 <= a < b < self.entries@.len() implies self.entries@[a].app_id
                        != self.entries@[b].app_id by {
                        if a == i {
                            assert(s[b].app_id != pg.app_id);
                        } else if b == i {
                            assert(s[a].app_id != pg.app_id);
                        } else {
                            assert(old(self).entries@[a].app_id != old(self).entries@[b].app_id);
                        }
                    }
                }
                return ;
            }
            i = i + 1;
        }
        let ghost s = self.entries@;
        let p = AppEntry { app_id, options };
        let ghost pg = p;
        self.entries.push(p);
        proof {
            lemma_idx_push(s, pg);
            assert forall|a: int, b: int|
                0 <= a < b < self.entries@.len() implies self.entries@[a].app_id
                != self.entries@[b].app_id by {
                if b == self.entries@.len() - 1 {
                    assert(self.entries@[a].app_id != pg.app_id);
                } else {
                    assert(old(self).entries@[a].app_id != old(self).entries@[b].app_id);
                }
            }
        }
    }

    /// Look an application up.
    pub fn get(&self, app_id: u32) -> (r: Option<&String>)
        ensures
            match r {
                Some(v) => self.as_map().contains_key(app_id) && self.as_map()[app_id] == v@,
                None => !self.as_map().contains_key(app_id),
            },
    {
        let n: usize = self.entries.len();
        let mut i: usize = n;
        proof {
            assert(self.entries@.subrange(0, n as int) =~= self.entries@);
        }
        while i > 0
            invariant
                n == self.entries@.len(),
                i <= n,
                spec_idx_lookup(self.entries@, app_id) == spec_idx_lookup(
                    self.entries@.subrange(0, i as int),
                    app_id,
                ),
            decreases i,
        {
            let ghost pre = self.entries@.subrange(0, i as int);
            proof {
                assert(pre.last() == self.entries@[i - 1]);
                assert(pre.drop_last() =~= self.entries@.subrange(0, i - 1));
            }
            if self.entries[i - 1].app_id == app_id {
                proof {
                    assert(spec_idx_lookup(self.entries@, app_id) == Some(
                        self.entries@[i - 1].options@,
                    ));
                }
                return Some(&self.entries[i - 1].options);
            }
            i = i - 1;
        }
        proof {
            assert(self.entries@.subrange(0, 0) =~= Seq::<AppEntry>::empty());
            assert(spec_idx_lookup(self.entries@, app_id) is None);
        }
        None
    }
}

/// Where a patch lands in the document's lines.
pub enum PatchPoint {
    /// The target block exists and holds the field on this line.
    Field(int),
    /// The target block exists; this is its closing-brace line.
    CloseBrace(int),
    /// No target block; the applications section opens at this line.
    NewBlockAfter(int),
    /// Neither the block nor an applications section was found.
    Nowhere,
}

/// The line of the opening brace of the applications section, scanning with
/// a brace-depth counter.
pub open spec fn spec_apps_open(
    lines: Seq<Seq<char>>,
    i: int,
    depth: int,
    in_apps: bool,
    apps_depth: int,
) -> Option<int>
    decreases lines.len() - i,
{
    if i < 0 || i >= lines.len() {
        None
    } else {
        let t = spec_trim(lines[i]);
        if t == "{"@ {
            if in_apps && depth + 1 == apps_depth {
                Some(i)
            } else {
                spec_apps_open(lines, i + 1, depth + 1, in_apps, apps_depth)
            }
        } else {
            let depth1 = if t == "}"@ {
                depth - 1
            } else {
                depth
            };
            let in_apps1 = if t == "}"@ {
                in_apps && !(depth1 < apps_depth)
            } else {
                in_apps
            };
            if spec_starts_with(t, "\"apps\""@) {
                spec_apps_open(lines, i + 1, depth1, true, depth1 + 1)
            } else {
                spec_apps_open(lines, i + 1, depth1, in_apps1, apps_depth)
            }
        }
    }
}

/// Whether a line is a key/value line whose key is the launch-options field.
pub open spec fn spec_is_options_line(line: Seq<char>) -> bool {
    match spec_parse_key_value(line) {
        Some(kv) => spec_lower(kv.0) == "launchoptions"@,
        None => false,
    }
}

/// The patch point for one application: a depth-counted scan that finds the
/// applications section, then the application's block, then its field line
/// or closing brace; when the block is absent, the section's opening brace.
pub open spec fn spec_find_point(
    lines: Seq<Seq<char>>,
    i: int,
    depth: int,
    in_apps: bool,
    apps_depth: int,
    in_target: bool,
    target_depth: int,
    target_seen: bool,
    id: Seq<char>,
) -> PatchPoint
    decreases lines.len() - i,
{
    if i < 0 || i >= lines.len() {
        if !target_seen {
            match spec_apps_open(lines, 0, 0, false, 0) {
                Some(a) => PatchPoint::NewBlockAfter(a),
                None => PatchPoint::Nowhere,
            }
        } else {
            PatchPoint::Nowhere
        }
    } else {
        let t = spec_trim(lines[i]);
        if in_target && t == "}"@ && depth == target_depth {
            PatchPoint::CloseBrace(i)
        } else {
            let depth1 = if t == "{"@ {
                depth + 1
            } else if t == "}"@ {
                depth - 1
            } else {
                depth
            };
            let in_apps1 = if t == "}"@ {
                in_apps && !(depth1 < apps_depth)
            } else {
                in_apps
            };
            let in_target1 = if t == "}"@ {
                in_target && !(depth1 < target_depth)
            } else {
                in_target
            };
            let in_apps2 = if spec_starts_with(t, "\"apps\""@) {
                true
            } else {
                in_apps1
            };
            let apps_depth2 = if spec_starts_with(t, "\"apps\""@) {
                depth1 + 1
            } else {
                apps_depth
            };
            let hit = in_apps2 && !in_target1 && spec_parse_quoted_key(lines[i]) == Some(id);
            let in_target2 = if hit {
                true
            } else {
                in_target1
            };
            let target_depth2 = if hit {
                depth1 + 1
            } else {
                target_depth
            };
            let target_seen2 = target_seen || hit;
            if in_target2 && spec_is_options_line(lines[i]) {
                PatchPoint::Field(i)
            } else {
                spec_find_point(
                    lines,
                    i + 1,
                    depth1,
                    in_apps2,
                    apps_depth2,
                    in_target2,
                    target_depth2,
                    target_seen2,
                    id,
                )
            }
        }
    }
}

/// The patch point of a whole document's lines.
pub open spec fn spec_patch_point(lines: Seq<Seq<char>>, id: Seq<char>) -> PatchPoint {
    spec_find_point(lines, 0, 0, false, 0, false, 0, false, id)
}

/// The patch point, as found by the executable scan.
pub enum FoundPoint {
    Field(usize),
    CloseBrace(usize),
    NewBlockAfter(usize),
    Nowhere,
}

/// Find the opening brace of the applications section.
fn find_apps_open(lines: &Vec<String>) -> (r: Option<usize>)
    ensures
        match r {
            Some(a) => a < lines@.len() && spec_apps_open(lines.deep_view(), 0, 0, false, 0)
                == Some(a as int),
            None => spec_apps_open(lines.deep_view(), 0, 0, false, 0) is None,
        },
{
    let ghost ls = lines.deep_view();
    let n: usize = lines.len();
    let mut i: usize = 0;
    let mut depth: i128 = 0;
    let mut in_apps: bool = false;
    let mut apps_depth: i128 = 0;
    proof {
        assert(ls.len() == n);
    }
    while i < n
        invariant
            ls == lines.deep_view(),
            ls.len() == n,
            n == lines@.len(),
            i <= n,
            -(i as int) <= depth <= i as int,
            -(i as int) - 1 <= apps_depth <= i as int + 1,
            spec_apps_open(ls, 0, 0, false, 0) == spec_apps_open(
                ls,
                i as int,
                depth as int,
                in_apps,
                apps_depth as int,
            ),
        decreases n - i,
    {
        proof {
            assert(ls[i as int] == lines@[i as int]@);
        }
        let t = trim(lines[i].as_str());
        if str_eq(t, "{") {
            if in_apps && depth + 1 == apps_depth {
                return Some(i);
            }
            depth = depth + 1;
        } else if str_eq(t, "}") {
            depth = depth - 1;
            if in_apps && depth < apps_depth {
                in_apps = false;
            }
            if starts_with(t, "\"apps\"") {
                in_apps = true;
                apps_depth = depth + 1;
            }
        } else {
            if starts_with(t, "\"apps\"") {
                in_apps = true;
                apps_depth = depth + 1;
            }
        }
        i = i + 1;
    }
    None
}

/// Find the patch point for one application identifier.
fn find_patch_point(lines: &Vec<String>, id: &str) -> (r: FoundPoint)
    ensures
        match r {
            FoundPoint::Field(f) => f < lines@.len() && spec_patch_point(lines.deep_view(), id@)
                == PatchPoint::Field(f as int),
            FoundPoint::CloseBrace(c) => c < lines@.len() && spec_patch_point(
                lines.deep_view(),
                id@,
            ) == PatchPoint::CloseBrace(c as int),
            FoundPoint::NewBlockAfter(a) => a < lines@.len() && spec_patch_point(
                lines.deep_view(),
                id@,
            ) == PatchPoint::NewBlockAfter(a as int),
            FoundPoint::Nowhere => spec_patch_point(lines.deep_view(), id@)
                == PatchPoint::Nowhere,
        },
{
    let ghost ls = lines.deep_view();
    let n: usize = lines.len();
    let mut i: usize = 0;
    let mut depth: i128 = 0;
    let mut in_apps: bool = false;
    let mut apps_depth: i128 = 0;
    let mut in_target: bool = false;
    let mut target_depth: i128 = 0;
    let mut target_seen: bool = false;
    proof {
        assert(ls.len() == n);
    }
    while i < n
        invariant
            ls == lines.deep_view(),
            ls.len() == n,
            n == lines@.len(),
            i <= n,
            -(i as int) <= depth <= i as int,
            -(i as int) - 1 <= apps_depth <= i as int + 1,
            -(i as int) - 1 <= target_depth <= i as int + 1,
            spec_patch_point(ls, id@) == spec_find_point(
                ls,
                i as int,
                depth as int,
                in_apps,
                apps_depth as int,
                in_target,
                target_depth as int,
                target_seen,
                id@,
            ),
        decreases n - i,
    {
        proof {
            assert(ls[i as int] == lines@[i as int]@);
        }
        let line = &lines[i];
        let t = trim(line.as_str());
        let is_open = str_eq(t, "{");
        let is_close = str_eq(t, "}");
        if in_target && is_close && depth == target_depth {
            return FoundPoint::CloseBrace(i);
        }
        let depth1: i128 = if is_open {
            depth + 1
        } else if is_close {
            depth - 1
        } else {
            depth
        };
        let in_apps1: bool = if is_close {
            in_apps && !(depth1 < apps_depth)
        } else {
            in_apps
        };
        let in_target1: bool = if is_close {
            in_target && !(depth1 < target_depth)
        } else {
            in_target
        };
        let is_apps = starts_with(t, "\"apps\"");
        let in_apps2: bool = if is_apps {
            true
        } else {
            in_apps1
        };
        let apps_depth2: i128 = if is_apps {
            depth1 + 1
        } else {
            apps_depth
        };
        let hit: bool = if in_apps2 && !in_target1 {
            match parse_quoted_key(line.as_str()) {
                Some(k) => str_eq(k, id),
                None => false,
            }
        } else {
            false
        };
        let in_target2: bool = if hit {
            true
        } else {
            in_target1
        };
        let target_depth2: i128 = if hit {
            depth1 + 1
        } else {
            target_depth
        };
        let target_seen2: bool = target_seen || hit;
        let is_opts: bool = if in_target2 {
            match parse_key_value(line.as_str()) {
                Some(kv) => {
                    let lk = to_lowercase(kv.0);
                    str_eq(lk.as_str(), "launchoptions")
                },
                None => false,
            }
        } else {
            false
        };
        proof {
            if in_target2 {
                assert(is_opts == spec_is_options_line(ls[i as int]));
            }
        }
        if is_opts {
            return FoundPoint::Field(i);
        }
        depth = depth1;
        in_apps = in_apps2;
        apps_depth = apps_depth2;
        in_target = in_target2;
        target_depth = target_depth2;
        target_seen = target_seen2;
        i = i + 1;
    }
    if !target_seen {
        match find_apps_open(lines) {
            Some(a) => FoundPoint::NewBlockAfter(a),
            None => FoundPoint::Nowhere,
        }
    } else {
        FoundPoint::Nowhere
    }
}

/// Replace the line range `lo..hi` with the given lines.
fn splice_lines(lines: &Vec<String>, lo: usize, hi: usize, repl: Vec<String>) -> (r: Vec<String>)
    requires
        lo <= hi <= lines@.len(),
    ensures
        r@ == lines@.subrange(0, lo as int) + repl@ + lines@.subrange(
            hi as int,
            lines@.len() as int,
        ),
{
    let n: usize = lines.len();
    let mut out: Vec<String> = Vec::new();
    let mut i: usize = 0;
    while i < lo
        invariant
            lo <= hi <= n,
            n == lines@.len(),
            i <= lo,
            out@ == lines@.subrange(0, i as int),
        decreases lo - i,
    {
        out.push(lines[i].clone());
        proof {
            assert(out@ =~= lines@.subrange(0, i + 1));
        }
        i = i + 1;
    }
    let mut repl = repl;
    let ghost replv = repl@;
    out.append(&mut repl);
    let mut j: usize = hi;
    while j < n
        invariant
            lo <= hi <= n,
            n == lines@.len(),
            hi <= j <= n,
            out@ == lines@.subrange(0, lo as int) + replv + lines@.subrange(hi as int, j as int),
        decreases n - j,
    {
        out.push(lines[j].clone());
        proof {
            assert(out@ =~= lines@.subrange(0, lo as int) + replv + lines@.subrange(
                hi as int,
                j + 1,
            ));
        }
        j = j + 1;
    }
    proof {
        assert(out@ =~= lines@.subrange(0, lo as int) + replv + lines@.subrange(
            hi as int,
            n as int,
        ));
    }
    out
}

/// Escape a value for the document format.
pub fn escape_vdf_string(s: &str) -> (r: String)
    ensures
        r@ == spec_escape_vdf(s@),
{
    let n: usize = s.unicode_len();
    let mut out: String = String::new();
    let mut i: usize = 0;
    proof {
        assert(s@.subrange(0, n as int) =~= s@);
        assert(out@ + spec_escape_vdf(s@) =~= spec_escape_vdf(s@));
    }
    while i < n
        invariant
            n == s@.len(),
            i <= n,
            spec_escape_vdf(s@) == out@ + spec_escape_vdf(s@.subrange(i as int, n as int)),
        decreases n - i,
    {
        let ghost tail = s@.subrange(i as int, n as int);
        let c = s.get_char(i);
        if c == '\\' {
            push_char(&mut out, '\\');
            push_char(&mut out, '\\');
        } else if c == '"' {
            push_char(&mut out, '\\');
            push_char(&mut out, '"');
        } else {
            push_char(&mut out, c);
        }
        proof {
            assert(tail.drop_first() =~= s@.subrange(i + 1, n as int));
            assert(spec_escape_vdf(s@) =~= out@ + spec_escape_vdf(s@.subrange(i + 1, n as int)));
        }
        i = i + 1;
    }
    proof {
        assert(s@.subrange(n as int, n as int) =~= Seq::<char>::empty());
        assert(spec_escape_vdf(Seq::<char>::empty()) =~= Seq::<char>::empty());
        assert(out@ =~= spec_escape_vdf(s@));
    }
    out
}

/// A freshly written field line: the given indentation, the field name, two
/// tabs, and the escaped value in quotes.
pub open spec fn spec_field_line(indent: Seq<char>, value: Seq<char>) -> Seq<char> {
    indent + "\"LaunchOptions\"\t\t\""@ + spec_escape_vdf(value) + "\""@
}

/// Build a field line.
fn make_field_line(indent: &str, extra_tab: bool, value: &str) -> (r: String)
    ensures
        !extra_tab ==> r@ == spec_field_line(indent@, value@),
        extra_tab ==> r@ == spec_field_line(indent@ + "\t"@, value@),
{
    let mut s = indent.to_owned();
    if extra_tab {
        push_char(&mut s, '\t');
        proof {
            reveal_strlit("\t");
            assert(s@ =~= indent@ + "\t"@);
        }
    }
    s.append("\"LaunchOptions\"\t\t\"");
    let esc = escape_vdf_string(value);
    s.append(esc.as_str());
    s.append("\"");
    proof {
        if extra_tab {
            assert(s@ =~= spec_field_line(indent@ + "\t"@, value@));
        } else {
            assert(s@ =~= spec_field_line(indent@, value@));
        }
    }
    s
}

/// The four lines of a freshly synthesized application block.
pub open spec fn spec_new_block(id: Seq<char>, value: Seq<char>) -> Seq<Seq<char>> {
    seq![
        "\t\t\t\t\t\""@ + id + "\""@,
        "\t\t\t\t\t{"@,
        "\t\t\t\t\t\t\"LaunchOptions\"\t\t\""@ + spec_escape_vdf(value) + "\""@,
        "\t\t\t\t\t}"@,
    ]
}

/// Build the four lines of a new application block.
fn make_new_block(id: &str, value: &str) -> (r: Vec<String>)
    ensures
        r.deep_view() == spec_new_block(id@, value@),
{
    let mut v: Vec<String> = Vec::new();
    let mut l0 = String::from_str("\t\t\t\t\t\"");
    l0.append(id);
    l0.append("\"");
    v.push(l0);
    v.push(String::from_str("\t\t\t\t\t{"));
    let mut l2 = String::from_str("\t\t\t\t\t\t\"LaunchOptions\"\t\t\"");
    let esc = escape_vdf_string(value);
    l2.append(esc.as_str());
    l2.append("\"");
    v.push(l2);
    v.push(String::from_str("\t\t\t\t\t}"));
    proof {
        assert(v.deep_view() =~= spec_new_block(id@, value@));
    }
    v
}

/// The document's lines after patching one application's field: a single
/// splice, chosen by the patch point; everything outside it is unchanged.
pub open spec fn spec_patch_lines(
    lines: Seq<Seq<char>>,
    id: Seq<char>,
    opt: Option<Seq<char>>,
) -> Seq<Seq<char>> {
    match spec_patch_point(lines, id) {
        PatchPoint::Field(f) => match opt {
            Some(v) => lines.subrange(0, f) + seq![
                spec_field_line(spec_line_indent(lines[f]), v),
            ] + lines.subrange(f + 1, lines.len() as int),
            None => lines.subrange(0, f) + lines.subrange(f + 1, lines.len() as int),
        },
        PatchPoint::CloseBrace(c) => match opt {
            Some(v) => lines.subrange(0, c) + seq![
                spec_field_line(spec_line_indent(lines[c]) + "\t"@, v),
            ] + lines.subrange(c, lines.len() as int),
            None => lines,
        },
        PatchPoint::NewBlockAfter(a) => match opt {
            Some(v) => lines.subrange(0, a + 1) + spec_new_block(id, v) + lines.subrange(
                a + 1,
                lines.len() as int,
            ),
            None => lines,
        },
        PatchPoint::Nowhere => lines,
    }
}

/// The document text after patching one application's field.
pub open spec fn spec_set_options(
    content: Seq<char>,
    id: Seq<char>,
    opt: Option<Seq<char>>,
) -> Seq<char> {
    spec_join_lines(spec_patch_lines(spec_split_lines(content), id, opt))
}

/// The map of launch options that one structural scan of the document finds.
pub open spec fn spec_parse_u32(k: Seq<char>) -> Option<u32> {
    if k.len() > 0 && crate::text::spec_all_digits(k) && crate::text::spec_digits_val(k)
        <= u32::MAX {
        Some(crate::text::spec_digits_val(k) as u32)
    } else {
        None
    }
}

/// The scan that builds the index: depth-counted, collecting the field value
/// of every application block inside the applications section.
pub open spec fn spec_parse_scan(
    lines: Seq<Seq<char>>,
    i: int,
    depth: int,
    in_apps: bool,
    apps_depth: int,
    cur: Option<u32>,
    acc: Map<u32, Seq<char>>,
) -> Map<u32, Seq<char>>
    decreases lines.len() - i,
{
    if i < 0 || i >= lines.len() {
        acc
    } else {
        let t = spec_trim(lines[i]);
        let depth1 = if t == "{"@ {
            depth + 1
        } else if t == "}"@ {
            depth - 1
        } else {
            depth
        };
        let in_apps1 = if t == "}"@ {
            in_apps && !(depth1 < apps_depth)
        } else {
            in_apps
        };
        let cur1 = if t == "}"@ && in_apps1 && cur is Some && depth1 == apps_depth {
            None
        } else {
            cur
        };
        if spec_starts_with(t, "\"apps\""@) {
            spec_parse_scan(lines, i + 1, depth1, true, depth1 + 1, cur1, acc)
        } else if !in_apps1 {
            spec_parse_scan(lines, i + 1, depth1, in_apps1, apps_depth, cur1, acc)
        } else if cur1 is None {
            let cur2 = match spec_parse_quoted_key(lines[i]) {
                Some(k) => spec_parse_u32(k),
                None => None,
            };
            spec_parse_scan(lines, i + 1, depth1, in_apps1, apps_depth, cur2, acc)
        } else {
            let acc2 = match spec_parse_key_value(lines[i]) {
                Some(kv) => if spec_lower(kv.0) == "launchoptions"@ {
                    acc.insert(cur1->0, kv.1)
                } else {
                    acc
                },
                None => acc,
            };
            spec_parse_scan(lines, i + 1, depth1, in_apps1, apps_depth, cur1, acc2)
        }
    }
}

/// The launch-options index of a whole document.
pub open spec fn spec_parse_index(content: Seq<char>) -> Map<u32, Seq<char>> {
    spec_parse_scan(
        spec_split_lines(content),
        0,
        0,
        false,
        0,
        None,
        Map::<u32, Seq<char>>::empty(),
    )
}

/// The preference document: its raw text, which is the truth, and a derived
/// index from application identifier to current launch options.  The index
/// is only a cache: it always equals a fresh structural scan of the text,
/// and every mutation rebuilds it from the patched text in the same step.
#[derive(Debug, Clone)]
pub struct LocalConfig {
    /// The raw text of the whole document.
    pub content: String,
    /// The derived index, rebuilt from the text at every mutation.
    pub launch_options: OptionsIndex,
}

impl LocalConfig {
    /// The index holds each key at most once.
    pub open spec fn wf(self) -> bool {
        self.launch_options.wf()
    }

    /// The indexed launch options by application.
    pub open spec fn index_map(self) -> Map<u32, Seq<char>> {
        self.launch_options.as_map()
    }

    /// The cache invariant: the index equals a fresh structural scan of the
    /// raw text.
    pub open spec fn index_coherent(self) -> bool {
        self.index_map() == spec_parse_index(self.content@)
    }

    /// Read a document: keep its text verbatim and build the index by one
    /// structural scan.
    pub fn parse(content: &str) -> (r: LocalConfig)
        ensures
            r.content@ == content@,
            r.wf(),
            r.index_map() == spec_parse_index(content@),
            r.index_coherent(),
    {
        let lines = split_lines(content);
        let ghost ls = lines.deep_view();
        let n: usize = lines.len();
        let mut index = OptionsIndex::new();
        let mut i: usize = 0;
        let mut depth: i128 = 0;
        let mut in_apps: bool = false;
        let mut apps_depth: i128 = 0;
        let mut cur: Option<u32> = None;
        proof {
            assert(ls.len() == n);
        }
        while i < n
            invariant
                ls == lines.deep_view(),
                ls.len() == n,
                n == lines@.len(),
                i <= n,
                -(i as int) <= depth <= i as int,
                -(i as int) - 1 <= apps_depth <= i as int + 1,
                index.wf(),
                spec_parse_index(content@) == spec_parse_scan(
                    ls,
                    i as int,
                    depth as int,
                    in_apps,
                    apps_depth as int,
                    cur,
                    index.as_map(),
                ),
            decreases n - i,
        {
            proof {
                assert(ls[i as int] == lines@[i as int]@);
            }
            let line = &lines[i];
            let t = trim(line.as_str());
            let is_open = str_eq(t, "{");
            let is_close = str_eq(t, "}");
            let depth1: i128 = if is_open {
                depth + 1
            } else if is_close {
                depth - 1
            } else {
                depth
            };
            let in_apps1: bool = if is_close {
                in_apps && !(depth1 < apps_depth)
            } else {
                in_apps
            };
            let cur1: Option<u32> = if is_close && in_apps1 && cur.is_some() && depth1
                == apps_depth {
                None
            } else {
                cur
            };
            if starts_with(t, "\"apps\"") {
                depth = depth1;
                in_apps = true;
                apps_depth = depth1 + 1;
                cur = cur1;
            } else if !in_apps1 {
                depth = depth1;
                in_apps = in_apps1;
                cur = cur1;
            } else if cur1.is_none() {
                let cur2: Option<u32> = match parse_quoted_key(line.as_str()) {
                    Some(k) => crate::text::parse_u32(k),
                    None => None,
                };
                depth = depth1;
                in_apps = in_apps1;
                cur = cur2;
            } else {
                match parse_key_value(line.as_str()) {
                    Some(kv) => {
                        let lk = to_lowercase(kv.0);
                        if str_eq(lk.as_str(), "launchoptions") {
                            match cur1 {
                                Some(id) => {
                                    index.set(id, kv.1);
                                },
                                None => {},
                            }
                        }
                    },
                    None => {},
                }
                depth = depth1;
                in_apps = in_apps1;
                cur = cur1;
            }
            i = i + 1;
        }
        LocalConfig { content: content.to_owned(), launch_options: index }
    }

    /// The current launch options of one application, from the index.
    pub fn get_launch_options(&self, app_id: u32) -> (r: Option<&String>)
        ensures
            match r {
                Some(v) => self.index_map().contains_key(app_id) && self.index_map()[app_id]
                    == v@,
                None => !self.index_map().contains_key(app_id),
            },
    {
        self.launch_options.get(app_id)
    }

    /// Set, replace or delete one application's launch options.  The text is
    /// patched by a single splice at the patch point, and the index is
    /// rebuilt from the patched text in the same step, so the cache stays
    /// coherent with the truth on every document.  On a degenerate document
    /// holding several blocks or field lines for one application, the patch
    /// touches the first while the scan reads the last; the rebuilt index
    /// follows the scan, because the text is the truth.
    pub fn set_launch_options(&mut self, app_id: u32, options: Option<&str>)
        ensures
            final(self).wf(),
            final(self).content@ == spec_set_options(
                old(self).content@,
                spec_dec(app_id as nat),
                match options {
                    Some(o) => Some(o@),
                    None => None,
                },
            ),
            final(self).index_map() == spec_parse_index(final(self).content@),
            final(self).index_coherent(),
    {
        let id_str = u32_to_string(app_id);
        let lines = split_lines(self.content.as_str());
        let ghost ls = lines.deep_view();
        let n: usize = lines.len();
        let pt = find_patch_point(&lines, id_str.as_str());
        let new_lines: Vec<String> = match pt {
            FoundPoint::Field(f) => match options {
                Some(o) => {
                    let fl = make_field_line(get_line_indent(lines[f].as_str()), false, o);
                    let mut repl: Vec<String> = Vec::new();
                    repl.push(fl);
                    splice_lines(&lines, f, f + 1, repl)
                },
                None => splice_lines(&lines, f, f + 1, Vec::new()),
            },
            FoundPoint::CloseBrace(c) => match options {
                Some(o) => {
                    let fl = make_field_line(get_indent(lines[c].as_str()), true, o);
                    let mut repl: Vec<String> = Vec::new();
                    repl.push(fl);
                    splice_lines(&lines, c, c, repl)
                },
                None => splice_lines(&lines, 0, 0, Vec::new()),
            },
            FoundPoint::NewBlockAfter(a) => match options {
                Some(o) => {
                    let block = make_new_block(id_str.as_str(), o);
                    splice_lines(&lines, a + 1, a + 1, block)
                },
                None => splice_lines(&lines, 0, 0, Vec::new()),
            },
            FoundPoint::Nowhere => splice_lines(&lines, 0, 0, Vec::new()),
        };
        proof {
            assert(new_lines.deep_view() =~= spec_patch_lines(
                ls,
                id_str@,
                match options {
                    Some(o) => Some(o@),
                    None => None,
                },
            ));
        }
        let new_content = join_lines(&new_lines);
        let fresh = LocalConfig::parse(new_content.as_str());
        self.content = new_content;
        self.launch_options = fresh.launch_options;
    }

    /// The raw text of the document.
    pub fn content(&self) -> (r: &str)
        ensures
            r@ == self.content@,
    {
        self.content.as_str()
    }
}

/// Set launch options on a loaded document.
pub fn set_launch_options(config: &mut LocalConfig, app_id: u32, options: Option<&str>)
    ensures
        final(config).wf(),
        final(config).content@ == spec_set_options(
            old(config).content@,
            spec_dec(app_id as nat),
            match options {
                Some(o) => Some(o@),
                None => None,
            },
        ),
        final(config).index_coherent(),
{
    config.set_launch_options(app_id, options);
}

/// Read launch options from a loaded document.
pub fn get_launch_options(config: &LocalConfig, app_id: u32) -> (r: Option<String>)
    ensures
        match r {
            Some(v) => config.index_map().contains_key(app_id) && config.index_map()[app_id]
                == v@,
            None => !config.index_map().contains_key(app_id),
        },
{
    match config.get_launch_options(app_id) {
        Some(v) => Some(v.clone()),
        None => None,
    }
}

/// Insert a synthesized block for an application directly inside the
/// applications section's opening brace; without such a section the text
/// comes back with only its line joins renewed.
pub fn add_app_entry(content: &str, app_id: u32, options: &str) -> (r: String)
    ensures
        r@ == (match spec_apps_open(spec_split_lines(content@), 0, 0, false, 0) {
            Some(a) => spec_join_lines(
                spec_split_lines(content@).subrange(0, a + 1) + spec_new_block(
                    spec_dec(app_id as nat),
                    options@,
                ) + spec_split_lines(content@).subrange(
                    a + 1,
                    spec_split_lines(content@).len() as int,
                ),
            ),
            None => spec_join_lines(spec_split_lines(content@)),
        }),
{
    let id_str = u32_to_string(app_id);
    let lines = split_lines(content);
    let n: usize = lines.len();
    let new_lines: Vec<String> = match find_apps_open(&lines) {
        Some(a) => {
            let block = make_new_block(id_str.as_str(), options);
            splice_lines(&lines, a + 1, a + 1, block)
        },
        None => splice_lines(&lines, 0, 0, Vec::new()),
    };
    proof {
        match spec_apps_open(spec_split_lines(content@), 0, 0, false, 0) {
            Some(a) => {
                assert(new_lines.deep_view() =~= spec_split_lines(content@).subrange(0, a + 1)
                    + spec_new_block(spec_dec(app_id as nat), options@) + spec_split_lines(
                    content@,
                ).subrange(a + 1, spec_split_lines(content@).len() as int));
            },
            None => {
                assert(new_lines.deep_view() =~= spec_split_lines(content@));
            },
        }
    }
    join_lines(&new_lines)
}

/// Whether a launch-options string was written by this tool: either the
/// plain default, or an old-style gamescope line that names the tool.
pub open spec fn spec_is_our_launch_options(options: Seq<char>) -> bool {
    let t = spec_trim(options);
    t == "gamescope -- %command%"@ || (spec_starts_with(t, "gamescope"@)
        && crate::text::spec_contains(t, "steam-command-runner"@))
}

/// Whether a launch-options string was written by this tool.
pub fn is_our_launch_options(options: &str) -> (r: bool)
    ensures
        r == spec_is_our_launch_options(options@),
{
    let t = trim(options);
    if str_eq(t, "gamescope -- %command%") {
        return true;
    }
    if starts_with(t, "gamescope") && crate::text::contains_sub(t, "steam-command-runner") {
        return true;
    }
    false
}

/// The default launch options this tool writes.
pub fn generate_default_launch_options() -> (r: String)
    ensures
        r@ == "gamescope -- %command%"@,
{
    String::from_str("gamescope -- %command%")
}

/// How every scanner reads a freshly written field line: a key/value line
/// whose key is the field name and whose value reads back exactly; not a
/// standalone key, a brace, or a section opener; indented as written.
pub proof fn lemma_parse_field_line(indent: Seq<char>, v: Seq<char>)
    requires
        forall|j: int| 0 <= j < indent.len() ==> spec_is_space(#[trigger] indent[j]),
    ensures
        spec_parse_key_value(spec_field_line(indent, v)) == Some(("LaunchOptions"@, v)),
        spec_is_options_line(spec_field_line(indent, v)),
        spec_parse_quoted_key(spec_field_line(indent, v)) is None,
        spec_trim(spec_field_line(indent, v)) != "{"@,
        spec_trim(spec_field_line(indent, v)) != "}"@,
        !crate::text::spec_starts_with(spec_trim(spec_field_line(indent, v)), "\"apps\""@),
        spec_line_indent(spec_field_line(indent, v)) == indent,
{
    reveal_strlit("\"LaunchOptions\"\t\t\"");
    reveal_strlit("\"");
    reveal_strlit("LaunchOptions");
    reveal_strlit("launchoptions");
    reveal_strlit("\"\t\t\"");
    reveal_strlit("\t\t");
    reveal_strlit("{");
    reveal_strlit("}");
    reveal_strlit("\"apps\"");
    let esc = spec_escape_vdf(v);
    let line = spec_field_line(indent, v);
    let body = "\"LaunchOptions\"\t\t\""@ + esc + "\""@;
    assert(line =~= indent + body);
    assert(body[0] == '"');
    assert(body[body.len() - 1] == '"');
    crate::text::lemma_trim_sandwich(indent, body);
    let t = spec_trim(line);
    assert(t == body);
    assert(t[0] == '"');
    let rest = t.drop_first();
    assert(rest =~= "LaunchOptions"@ + ("\"\t\t\""@ + esc + "\""@));
    assert forall|j: int| 0 <= j < "LaunchOptions"@.len() implies #[trigger] "LaunchOptions"@[j]
        != '"' by {}
    assert(("\"\t\t\""@ + esc + "\""@)[0] == '"');
    crate::text::lemma_find_char_concat("LaunchOptions"@, "\"\t\t\""@ + esc + "\""@, '"');
    let ke = spec_find_char(rest, '"');
    assert(ke == 13);
    assert(rest.subrange(0, 13) =~= "LaunchOptions"@);
    let after_raw = rest.subrange(ke + 1, rest.len() as int);
    assert(after_raw =~= "\t\t"@ + ("\""@ + esc + "\""@));
    assert(("\""@ + esc + "\""@)[0] == '"');
    assert(("\""@ + esc + "\""@)[("\""@ + esc + "\""@).len() - 1] == '"');
    crate::text::lemma_trim_sandwich("\t\t"@, "\""@ + esc + "\""@);
    let after = spec_trim(after_raw);
    assert(after == "\""@ + esc + "\""@);
    assert(after[0] == '"');
    let vr = after.drop_first();
    assert(vr =~= esc + seq!['"'] + Seq::<char>::empty());
    crate::laws::lemma_escape_roundtrip(v, Seq::empty());
    assert(spec_scan_value(vr) == v);
    assert(spec_parse_key_value(line) == Some(("LaunchOptions"@, v)));
    // The key folds to the field name.
    assert(spec_lower("LaunchOptions"@) =~= "launchoptions"@);
    assert(spec_is_options_line(line));
    // Not a standalone key: text follows the closing quote.
    assert(after.len() > 0);
    assert(after != "{"@);
    assert(spec_parse_quoted_key(line) is None);
    // Not a brace and not the section opener.
    assert(t != "{"@);
    assert(t != "}"@);
    if crate::text::spec_starts_with(t, "\"apps\""@) {
        assert(t.subrange(0, 6)[1] == t[1]);
        assert(t[1] == 'L');
        assert("\"apps\""@[1] == 'a');
    }
    // The indentation reads back as written.
    assert(spec_line_indent(line) =~= indent);
}

/// How every scanner reads a freshly written block-key line: a standalone
/// quoted numeric key, nothing else.
pub proof fn lemma_parse_key_line(ws: Seq<char>, id: Seq<char>)
    requires
        forall|j: int| 0 <= j < ws.len() ==> spec_is_space(#[trigger] ws[j]),
        id.len() > 0,
        crate::text::spec_all_digits(id),
    ensures
        spec_parse_quoted_key(ws + "\""@ + id + "\""@) == Some(id),
        spec_parse_key_value(ws + "\""@ + id + "\""@) is None,
        spec_trim(ws + "\""@ + id + "\""@) != "{"@,
        spec_trim(ws + "\""@ + id + "\""@) != "}"@,
        !crate::text::spec_starts_with(spec_trim(ws + "\""@ + id + "\""@), "\"apps\""@),
{
    reveal_strlit("\"");
    reveal_strlit("{");
    reveal_strlit("}");
    reveal_strlit("\"apps\"");
    let line = ws + "\""@ + id + "\""@;
    let body = "\""@ + id + "\""@;
    assert(line =~= ws + body);
    assert forall|j: int| 0 <= j < id.len() implies !spec_is_space(#[trigger] id[j]) && id[j]
        != '"' by {
        assert(crate::text::spec_is_digit(id[j]));
    }
    assert(body[0] == '"');
    assert(body[body.len() - 1] == '"');
    crate::text::lemma_trim_sandwich(ws, body);
    let t = spec_trim(line);
    assert(t == body);
    assert(t[0] == '"');
    let rest = t.drop_first();
    assert(rest =~= id + "\""@);
    assert(("\""@)[0] == '"');
    crate::text::lemma_find_char_concat(id, "\""@, '"');
    let e = spec_find_char(rest, '"');
    assert(e == id.len());
    assert(rest.subrange(0, e) =~= id);
    let after_raw = rest.subrange(e + 1, rest.len() as int);
    assert(after_raw =~= Seq::<char>::empty());
    assert(spec_trim(Seq::<char>::empty()) =~= Seq::<char>::empty());
    assert(spec_parse_quoted_key(line) == Some(id));
    assert(spec_parse_key_value(line) is None);
    assert(t != "{"@);
    assert(t != "}"@);
    if crate::text::spec_starts_with(t, "\"apps\""@) {
        assert(t.subrange(0, 6)[1] == t[1]);
        assert(t[1] == id[0]);
        assert(crate::text::spec_is_digit(id[0]));
        assert("\"apps\""@[1] == 'a');
    }
}

/// How every scanner reads an indented opening brace.
pub proof fn lemma_parse_open_brace_line(ws: Seq<char>)
    requires
        forall|j: int| 0 <= j < ws.len() ==> spec_is_space(#[trigger] ws[j]),
    ensures
        spec_trim(ws + "{"@) == "{"@,
        spec_parse_quoted_key(ws + "{"@) is None,
        spec_parse_key_value(ws + "{"@) is None,
        !crate::text::spec_starts_with(spec_trim(ws + "{"@), "\"apps\""@),
{
    reveal_strlit("{");
    reveal_strlit("\"apps\"");
    let body = "{"@;
    assert(body[0] == '{');
    assert(!spec_is_space(body[0]));
    crate::text::lemma_trim_sandwich(ws, body);
    let t = spec_trim(ws + body);
    assert(t == body);
    assert(t[0] != '"');
    assert(t.len() == 1);
    if crate::text::spec_starts_with(t, "\"apps\""@) {
        assert("\"apps\""@.len() == 6);
    }
}

/// Escaping introduces no newline.
pub proof fn lemma_escape_no_nl(v: Seq<char>)
    requires
        crate::text::spec_no_nl(v),
    ensures
        crate::text::spec_no_nl(spec_escape_vdf(v)),
    decreases v.len(),
{
    if v.len() > 0 {
        assert(crate::text::spec_no_nl(v.drop_first()));
        lemma_escape_no_nl(v.drop_first());
        let e = spec_escape_vdf(v);
        let er = spec_escape_vdf(v.drop_first());
        assert forall|j: int| 0 <= j < e.len() implies #[trigger] e[j] != '\n' by {
            if v[0] == '\\' || v[0] == '"' {
                if j >= 2 {
                    assert(e[j] == er[j - 2]);
                }
            } else {
                if j >= 1 {
                    assert(e[j] == er[j - 1]);
                } else {
                    assert(e[0] == v[0]);
                }
            }
        }
    }
}

/// A key/value line is neither a standalone key nor a brace.
pub proof fn lemma_options_line_props(l: Seq<char>)
    requires
        spec_is_options_line(l),
    ensures
        spec_parse_quoted_key(l) is None,
        spec_trim(l) != "{"@,
        spec_trim(l) != "}"@,
{
    reveal_strlit("{");
    reveal_strlit("}");
    let t = spec_trim(l);
    assert(t.len() > 0 && t[0] == '"');
    assert(t != "{"@);
    assert(t != "}"@);
    let rest = t.drop_first();
    let ke = spec_find_char(rest, '"');
    assert(ke != rest.len());
    let after = spec_trim(rest.subrange(ke + 1, rest.len() as int));
    assert(after.len() > 0 && after[0] == '"');
    assert(after != "{"@);
}

/// A written field line carries no newline.
pub proof fn lemma_field_line_no_nl(indent: Seq<char>, v: Seq<char>)
    requires
        crate::text::spec_no_nl(indent),
        crate::text::spec_no_nl(v),
    ensures
        crate::text::spec_no_nl(spec_field_line(indent, v)),
{
    reveal_strlit("\"LaunchOptions\"\t\t\"");
    reveal_strlit("\"");
    lemma_escape_no_nl(v);
    let esc = spec_escape_vdf(v);
    let line = spec_field_line(indent, v);
    assert forall|j: int| 0 <= j < line.len() implies #[trigger] line[j] != '\n' by {
        if j < indent.len() {
            assert(line[j] == indent[j]);
        } else if j < indent.len() + 18 {
            assert(line[j] == "\"LaunchOptions\"\t\t\""@[j - indent.len()]);
        } else if j < indent.len() + 18 + esc.len() {
            assert(line[j] == esc[j - indent.len() - 18]);
        } else {
            assert(line[j] == "\""@[j - indent.len() - 18 - esc.len()]);
        }
    }
}

/// A synthesized block carries no newline in any of its lines.
pub proof fn lemma_new_block_no_nl(id: Seq<char>, v: Seq<char>)
    requires
        crate::text::spec_all_digits(id),
        crate::text::spec_no_nl(v),
    ensures
        crate::text::spec_lines_no_nl(spec_new_block(id, v)),
{
    reveal_strlit("\t\t\t\t\t\"");
    reveal_strlit("\t\t\t\t\t{");
    reveal_strlit("\t\t\t\t\t}");
    reveal_strlit("\t\t\t\t\t\t\"LaunchOptions\"\t\t\"");
    reveal_strlit("\"");
    lemma_escape_no_nl(v);
    let esc = spec_escape_vdf(v);
    let nb = spec_new_block(id, v);
    assert forall|k: int| 0 <= k < nb.len() implies crate::text::spec_no_nl(
        #[trigger] nb[k],
    ) by {
        if k == 0 {
            let l = nb[0];
            assert forall|j: int| 0 <= j < l.len() implies #[trigger] l[j] != '\n' by {
                if j < 6 {
                    assert(l[j] == "\t\t\t\t\t\""@[j]);
                } else if j < 6 + id.len() {
                    assert(l[j] == id[j - 6]);
                    assert(crate::text::spec_is_digit(id[j - 6]));
                } else {
                    assert(l[j] == "\""@[j - 6 - id.len()]);
                }
            }
        } else if k == 1 {
            let l = nb[1];
            assert forall|j: int| 0 <= j < l.len() implies #[trigger] l[j] != '\n' by {
                assert(l[j] == "\t\t\t\t\t{"@[j]);
            }
        } else if k == 2 {
            let l = nb[2];
            assert forall|j: int| 0 <= j < l.len() implies #[trigger] l[j] != '\n' by {
                if j < 24 {
                    assert(l[j] == "\t\t\t\t\t\t\"LaunchOptions\"\t\t\""@[j]);
                } else if j < 24 + esc.len() {
                    assert(l[j] == esc[j - 24]);
                } else {
                    assert(l[j] == "\""@[j - 24 - esc.len()]);
                }
            }
        } else {
            let l = nb[3];
            assert forall|j: int| 0 <= j < l.len() implies #[trigger] l[j] != '\n' by {
                assert(l[j] == "\t\t\t\t\t}"@[j]);
            }
        }
    }
}

} // verus!
