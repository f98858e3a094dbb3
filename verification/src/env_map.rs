//! A flattened environment mapping: unique keys, last writer wins.

use vstd::prelude::*;

use crate::text::str_eq;

verus! {

/// One environment variable.
#[derive(Debug, Clone)]
pub struct EnvPair {
    pub key: String,
    pub value: String,
}

/// The value bound to `k` in `s`, scanning from the most recent entry.
pub open spec fn spec_env_lookup(s: Seq<EnvPair>, k: Seq<char>) -> Option<Seq<char>>
    decreases s.len(),
{
    if s.len() == 0 {
        None
    } else if s.last().key@ == k {
        Some(s.last().value@)
    } else {
        spec_env_lookup(s.drop_last(), k)
    }
}

/// The mathematical map held by a sequence of bindings.
pub open spec fn env_map_of(s: Seq<EnvPair>) -> Map<Seq<char>, Seq<char>> {
    Map::new(
        |k: Seq<char>| spec_env_lookup(s, k) is Some,
        |k: Seq<char>| spec_env_lookup(s, k)->0,
    )
}

/// Appending a binding inserts it into the map.
pub proof fn lemma_env_push(s: Seq<EnvPair>, p: EnvPair)
    ensures
        env_map_of(s.push(p)) == env_map_of(s).insert(p.key@, p.value@),
{
    assert(s.push(p).last() == p);
    assert(s.push(p).drop_last() =~= s);
    assert forall|k: Seq<char>| true implies #[trigger] spec_env_lookup(s.push(p), k) == (
    if k == p.key@ {
        Some(p.value@)
    } else {
        spec_env_lookup(s, k)
    }) by {}
    assert(env_map_of(s.push(p)) =~= env_map_of(s).insert(p.key@, p.value@));
}

/// Overwriting the one binding of a key rebinds exactly that key.
proof fn lemma_lookup_update(s: Seq<EnvPair>, i: int, p: EnvPair, k: Seq<char>)
    requires
        0 <= i < s.len(),
        s[i].key@ == p.key@,
        forall|j: int| 0 <= j < s.len() && j != i ==> s[j].key@ != p.key@,
    ensures
        spec_env_lookup(s.update(i, p), k) == (if k == p.key@ {
            Some(p.value@)
        } else {
            spec_env_lookup(s, k)
        }),
    decreases s.len(),
{
    let t = s.update(i, p);
    if i == s.len() - 1 {
        assert(t.last() == p);
        assert(t.drop_last() =~= s.drop_last());
        if k != p.key@ {
            assert(s.last() == s[i]);
        }
    } else {
        assert(t.drop_last() =~= s.drop_last().update(i, p));
        assert(t.last() == s.last());
        assert(s.last().key@ != p.key@);
        lemma_lookup_update(s.drop_last(), i, p, k);
    }
}

/// Overwriting the one binding of a key updates it in the map.
pub proof fn lemma_env_update(s: Seq<EnvPair>, i: int, p: EnvPair)
    requires
        0 <= i < s.len(),
        s[i].key@ == p.key@,
        forall|j: int| 0 <= j < s.len() && j != i ==> s[j].key@ != p.key@,
    ensures
        env_map_of(s.update(i, p)) == env_map_of(s).insert(p.key@, p.value@),
{
    let t = s.update(i, p);
    assert forall|k: Seq<char>| true implies #[trigger] spec_env_lookup(t, k) == (
    if k == p.key@ {
        Some(p.value@)
    } else {
        spec_env_lookup(s, k)
    }) by {
        lemma_lookup_update(s, i, p, k);
    }
    assert(env_map_of(t) =~= env_map_of(s).insert(p.key@, p.value@));
}

/// Union distributes over a right-hand insert.
pub proof fn lemma_union_insert(
    m1: Map<Seq<char>, Seq<char>>,
    m2: Map<Seq<char>, Seq<char>>,
    k: Seq<char>,
    v: Seq<char>,
)
    ensures
        m1.union_prefer_right(m2.insert(k, v)) == m1.union_prefer_right(m2).insert(k, v),
{
    assert(m1.union_prefer_right(m2.insert(k, v)) =~= m1.union_prefer_right(m2).insert(k, v));
}

/// A set of environment variables with unique keys.
#[derive(Debug, Clone)]
pub struct EnvMap {
    pub entries: Vec<EnvPair>,
}

impl EnvMap {
    /// Keys occur at most once.
    pub open spec fn wf(self) -> bool {
        forall|i: int, j: int|
            #![trigger self.entries@[i].key@, self.entries@[j].key@]
            0 <= i < j < self.entries@.len() ==> self.entries@[i].key@ != self.entries@[j].key@
    }

    /// The mapping held.
    pub open spec fn as_map(self) -> Map<Seq<char>, Seq<char>> {
        env_map_of(self.entries@)
    }

    /// The bindings in insertion order.
    pub open spec fn spec_entries(self) -> Seq<EnvPair> {
        self.entries@
    }

    pub fn new() -> (r: EnvMap)
        ensures
            r.wf(),
            r.as_map() == Map::<Seq<char>, Seq<char>>::empty(),
            r.spec_entries().len() == 0,
    {
        let r = EnvMap { entries: Vec::new() };
        proof {
            assert(r.as_map() =~= Map::<Seq<char>, Seq<char>>::empty());
        }
        r
    }

    pub fn len(&self) -> (r: usize)
        ensures
            r == self.spec_entries().len(),
    {
        self.entries.len()
    }

    pub fn pair_at(&self, i: usize) -> (r: &EnvPair)
        requires
            i < self.spec_entries().len(),
        ensures
            *r == self.spec_entries()[i as int],
    {
        &self.entries[i]
    }

    /// Bind `key` to `value`, replacing any earlier binding.
    pub fn set(&mut self, key: String, value: String)
        requires
            old(self).wf(),
        ensures
            final(self).wf(),
            final(self).as_map() == old(self).as_map().insert(key@, value@),
    {
        let n: usize = self.entries.len();
        let mut i: usize = 0;
        while i < n
            invariant
                self == old(self),
                old(self).wf(),
                n == self.entries@.len(),
                i <= n,
                forall|j: int| 0 <= j < i ==> self.entries@[j].key@ != key@,
            decreases n - i,
        {
            if str_eq(self.entries[i].key.as_str(), key.as_str()) {
                let ghost s = self.entries@;
                let p = EnvPair { key, value };
                let ghost pg = p;
                self.entries[i] = p;
                proof {
                    assert(s == old(self).entries@);
                    assert(s[i as int].key@ == pg.key@);
                    assert forall|j: int|
                        0 <= j < s.len() && j != i implies s[j].key@ != pg.key@ by {
                        if j < i {
                        } else {
                            assert(old(self).entries@[i as int].key@ != old(
                                self,
                            ).entries@[j].key@);
                        }
                    }
                    lemma_env_update(s, i as int, pg);
                    assert forall|a: int, b: int|
                        0 <= a < b < self.entries@.len() implies self.entries@[a].key@
                        != self.entries@[b].key@ by {
                        if a == i {
                            assert(s[b].key@ != pg.key@);
                        } else if b == i {
                            assert(s[a].key@ != pg.key@);
                        } else {
                            assert(old(self).entries@[a].key@ != old(self).entries@[b].key@);
                        }
                    }
                }
                return ;
            }
            i = i + 1;
        }
        let ghost s = self.entries@;
        let p = EnvPair { key, value };
        let ghost pg = p;
        self.entries.push(p);
        proof {
            lemma_env_push(s, pg);
            assert forall|a: int, b: int|
                0 <= a < b < self.entries@.len() implies self.entries@[a].key@
                != self.entries@[b].key@ by {
                if b == self.entries@.len() - 1 {
                    assert(self.entries@[a].key@ != pg.key@);
                }
            }
        }
    }

    /// Look a key up.
    pub fn get(&self, key: &str) -> (r: Option<&String>)
        ensures
            match r {
                Some(v) => self.as_map().contains_key(key@) && self.as_map()[key@] == v@,
                None => !self.as_map().contains_key(key@),
            },
    {
        let n: usize = self.entries.len();
        let mut i: usize = n;
        proof {
            assert(self.entries@.subrange(0, n as int) =~= self.entries@);
        }
        while i > 0
            invariant
                n == self.entries@.len(),
                i <= n,
                spec_env_lookup(self.entries@, key@) == spec_env_lookup(
                    self.entries@.subrange(0, i as int),
                    key@,
                ),
            decreases i,
        {
            let ghost pre = self.entries@.subrange(0, i as int);
            proof {
                assert(pre.last() == self.entries@[i - 1]);
                assert(pre.drop_last() =~= self.entries@.subrange(0, i - 1));
            }
            if str_eq(self.entries[i - 1].key.as_str(), key) {
                proof {
                    assert(spec_env_lookup(self.entries@, key@) == Some(
                        self.entries@[i - 1].value@,
                    ));
                }
                return Some(&self.entries[i - 1].value);
            }
            i = i - 1;
        }
        proof {
            assert(self.entries@.subrange(0, 0) =~= Seq::<EnvPair>::empty());
            assert(spec_env_lookup(self.entries@, key@) is None);
        }
        None
    }

    /// Add every binding of `other`; on a shared key `other` wins.
    pub fn extend_with(&mut self, other: &EnvMap)
        requires
            old(self).wf(),
        ensures
            final(self).wf(),
            final(self).as_map() == old(self).as_map().union_prefer_right(other.as_map()),
    {
        let n: usize = other.entries.len();
        let mut i: usize = 0;
        proof {
            assert(env_map_of(other.entries@.subrange(0, 0)) =~= Map::<Seq<char>, Seq<char>>::empty());
            assert(old(self).as_map().union_prefer_right(
                env_map_of(other.entries@.subrange(0, 0)),
            ) =~= old(self).as_map());
        }
        while i < n
            invariant
                n == other.entries@.len(),
                i <= n,
                self.wf(),
                self.as_map() == old(self).as_map().union_prefer_right(
                    env_map_of(other.entries@.subrange(0, i as int)),
                ),
            decreases n - i,
        {
            let p = &other.entries[i];
            self.set(p.key.clone(), p.value.clone());
            proof {
                let pre = other.entries@.subrange(0, i as int);
                assert(other.entries@.subrange(0, i + 1) =~= pre.push(other.entries@[i as int]));
                lemma_env_push(pre, other.entries@[i as int]);
                lemma_union_insert(
                    old(self).as_map(),
                    env_map_of(pre),
                    other.entries@[i as int].key@,
                    other.entries@[i as int].value@,
                );
            }
            i = i + 1;
        }
        proof {
            assert(other.entries@.subrange(0, n as int) =~= other.entries@);
        }
    }
}

} // verus!
