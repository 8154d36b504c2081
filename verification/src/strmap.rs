//! A small name-to-value map over strings, kept as an association list with
//! unique keys. It backs both the environment of template variables and the
//! encoded header map.

use vstd::prelude::*;

verus! {

/// First-match lookup over an association list.
pub open spec fn lookup(ps: Seq<(Seq<char>, Seq<char>)>, k: Seq<char>) -> Option<Seq<char>>
    decreases ps.len(),
{
    if ps.len() == 0 {
        None
    } else if ps.first().0 == k {
        Some(ps.first().1)
    } else {
        lookup(ps.drop_first(), k)
    }
}

/// A mapping of names to string values. Keys are unique; the pair order is
/// the order of first insertion.
pub struct StrMap {
    pub pairs: Vec<(String, String)>,
}

impl StrMap {
    /// The pairs, at the level of character sequences.
    pub open spec fn spec_pairs(self) -> Seq<(Seq<char>, Seq<char>)> {
        self.pairs@.map_values(|p: (String, String)| (p.0@, p.1@))
    }

    /// Keys are pairwise distinct.
    pub open spec fn wf(self) -> bool {
        forall|i: int, j: int|
            0 <= i < j < self.spec_pairs().len() ==> (#[trigger] self.spec_pairs()[i]).0 != (
            #[trigger] self.spec_pairs()[j]).0
    }

    /// The value stored under a key, if any.
    pub open spec fn spec_get(self, k: Seq<char>) -> Option<Seq<char>> {
        lookup(self.spec_pairs(), k)
    }

    pub fn new() -> (r: StrMap)
        ensures
            r.wf(),
            r.spec_pairs() == Seq::<(Seq<char>, Seq<char>)>::empty(),
            forall|k: Seq<char>| r.spec_get(k) is None,
    {
        let r = StrMap { pairs: Vec::new() };
        proof {
            assert(r.spec_pairs() =~= Seq::<(Seq<char>, Seq<char>)>::empty());
        }
        r
    }

    pub fn len(&self) -> (n: usize)
        ensures
            n == self.spec_pairs().len(),
    {
        self.pairs.len()
    }

    /// The pairs in stored order, for walking the whole map.
    pub fn entries(&self) -> (r: &Vec<(String, String)>)
        ensures
            r@.map_values(|p: (String, String)| (p.0@, p.1@)) == self.spec_pairs(),
    {
        &self.pairs
    }

    pub fn get(&self, name: &String) -> (r: Option<&String>)
        ensures
            match r {
                Some(v) => self.spec_get(name@) == Some(v@),
                None => self.spec_get(name@) is None,
            },
    {
        let n = self.pairs.len();
        let mut i: usize = 0;
        proof {
            assert(self.spec_pairs().skip(0) =~= self.spec_pairs());
        }
        while i < n
            invariant
                n == self.spec_pairs().len(),
                i <= n,
                lookup(self.spec_pairs().skip(i as int), name@) == self.spec_get(name@),
            decreases n - i,
        {
            proof {
                assert(self.spec_pairs().skip(i as int).first() == self.spec_pairs()[i as int]);
                assert(self.spec_pairs().skip(i as int).drop_first() =~= self.spec_pairs().skip(
                    i as int + 1));
            }
            if (&self.pairs[i].0).eq(name) {
                return Some(&self.pairs[i].1);
            }
            i = i + 1;
        }
        proof {
            assert(self.spec_pairs().skip(n as int) =~= Seq::<(Seq<char>, Seq<char>)>::empty());
        }
        None
    }

    /// Stores `value` under `name`, replacing any earlier value for the same
    /// name and otherwise appending a new pair.
    pub fn insert(&mut self, name: String, value: String)
        requires
            old(self).wf(),
        ensures
            final(self).wf(),
            forall|k: Seq<char>|
                #[trigger] final(self).spec_get(k) == if k == name@ {
                    Some(value@)
                } else {
                    old(self).spec_get(k)
                },
    {
        let n = self.pairs.len();
        let mut i: usize = 0;
        while i < n
            invariant
                self == old(self),
                old(self).wf(),
                n == self.spec_pairs().len(),
                i <= n,
                forall|j: int| 0 <= j < i ==> (#[trigger] self.spec_pairs()[j]).0 != name@,
            decreases n - i,
        {
            if (&self.pairs[i].0).eq(&name) {
                let ghost old_pairs = self.spec_pairs();
                let ghost gi = i as int;
                self.pairs.set(i, (name, value));
                proof {
                    assert(old_pairs[gi].0 == name@);
                    assert(self.spec_pairs() =~= old_pairs.update(gi, (old_pairs[gi].0, value@)));
                    assert forall|k: Seq<char>|
                        #[trigger] self.spec_get(k) == if k == name@ {
                            Some(value@)
                        } else {
                            old(self).spec_get(k)
                        } by {
                        lemma_lookup_update(old_pairs, gi, value@, k);
                    }
                    assert forall|a: int, b: int|
                        0 <= a < b < self.spec_pairs().len() implies (
                    #[trigger] self.spec_pairs()[a]).0 != (#[trigger] self.spec_pairs()[b]).0 by {
                        assert(old_pairs == old(self).spec_pairs());
                        assert(self.spec_pairs().len() == old_pairs.len());
                        assert(old(self).wf());
                        assert(0 <= a < b < old(self).spec_pairs().len());
                        assert((old(self).spec_pairs()[a]).0 != (old(self).spec_pairs()[b]).0);
                        assert(self.spec_pairs()[a].0 == old_pairs[a].0);
                        assert(self.spec_pairs()[b].0 == old_pairs[b].0);
                    }
                }
                return ;
            }
            i = i + 1;
        }
        let ghost old_pairs = self.spec_pairs();
        proof {
            lemma_lookup_absent(old_pairs, name@);
        }
        self.pairs.push((name, value));
        proof {
            assert(self.spec_pairs() =~= old_pairs.push((name@, value@)));
            assert forall|k: Seq<char>|
                #[trigger] self.spec_get(k) == if k == name@ {
                    Some(value@)
                } else {
                    old(self).spec_get(k)
                } by {
                lemma_lookup_push(old_pairs, name@, value@, k);
            }
            assert forall|a: int, b: int|
                0 <= a < b < self.spec_pairs().len() implies (#[trigger] self.spec_pairs()[a]).0
                != (#[trigger] self.spec_pairs()[b]).0 by {
                if b < old_pairs.len() {
                    assert(self.spec_pairs()[a].0 == old_pairs[a].0);
                    assert(self.spec_pairs()[b].0 == old_pairs[b].0);
                } else {
                    assert(self.spec_pairs()[b].0 == name@);
                    assert(self.spec_pairs()[a].0 == old_pairs[a].0);
                    if old_pairs[a].0 == name@ {
                        lemma_lookup_present(old_pairs, a, name@);
                    }
                }
            }
        }
    }
}

/// Updating the value at a position whose key occurs nowhere earlier changes
/// the lookup of that key alone.
proof fn lemma_lookup_update(ps: Seq<(Seq<char>, Seq<char>)>, i: int, v: Seq<char>, k: Seq<char>)
    requires
        0 <= i < ps.len(),
        forall|j: int| 0 <= j < i ==> (#[trigger] ps[j]).0 != ps[i].0,
    ensures
        lookup(ps.update(i, (ps[i].0, v)), k) == if k == ps[i].0 {
            Some(v)
        } else {
            lookup(ps, k)
        },
    decreases ps.len(),
{
    let qs = ps.update(i, (ps[i].0, v));
    if i == 0 {
        assert(qs.first() == (ps[0].0, v));
        assert(qs.drop_first() =~= ps.drop_first());
    } else {
        assert(qs.first() == ps.first());
        assert(ps.first().0 != ps[i].0) by {
            assert(ps[0].0 != ps[i].0);
        }
        assert(qs.drop_first() =~= ps.drop_first().update(i - 1, (ps[i].0, v)));
        assert(ps.drop_first()[i - 1] == ps[i]);
        assert forall|j: int|
            0 <= j < i - 1 implies (#[trigger] ps.drop_first()[j]).0 != ps.drop_first()[i
            - 1].0 by {
            assert(ps.drop_first()[j] == ps[j + 1]);
        }
        lemma_lookup_update(ps.drop_first(), i - 1, v, k);
    }
}

/// A key absent from every pair looks up to nothing.
proof fn lemma_lookup_absent(ps: Seq<(Seq<char>, Seq<char>)>, k: Seq<char>)
    requires
        forall|j: int| 0 <= j < ps.len() ==> (#[trigger] ps[j]).0 != k,
    ensures
        lookup(ps, k) is None,
    decreases ps.len(),
{
    if ps.len() > 0 {
        assert(ps.first() == ps[0]);
        assert forall|j: int|
            0 <= j < ps.drop_first().len() implies (#[trigger] ps.drop_first()[j]).0 != k by {
            assert(ps.drop_first()[j] == ps[j + 1]);
        }
        lemma_lookup_absent(ps.drop_first(), k);
    }
}

/// A key that stands at some position looks up to something.
proof fn lemma_lookup_present(ps: Seq<(Seq<char>, Seq<char>)>, i: int, k: Seq<char>)
    requires
        0 <= i < ps.len(),
        ps[i].0 == k,
    ensures
        lookup(ps, k) is Some,
    decreases ps.len(),
{
    if ps.first().0 != k {
        assert(ps.drop_first()[i - 1] == ps[i]);
        lemma_lookup_present(ps.drop_first(), i - 1, k);
    }
}

/// Appending a pair with a fresh key adds that one binding and keeps the rest.
proof fn lemma_lookup_push(
    ps: Seq<(Seq<char>, Seq<char>)>,
    name: Seq<char>,
    v: Seq<char>,
    k: Seq<char>,
)
    requires
        lookup(ps, name) is None,
    ensures
        lookup(ps.push((name, v)), k) == if k == name {
            Some(v)
        } else {
            lookup(ps, k)
        },
    decreases ps.len(),
{
    if ps.len() == 0 {
        assert(ps.push((name, v)).first() == (name, v));
        assert(ps.push((name, v)).drop_first() =~= Seq::<(Seq<char>, Seq<char>)>::empty());
    } else {
        assert(ps.push((name, v)).first() == ps.first());
        assert(ps.push((name, v)).drop_first() =~= ps.drop_first().push((name, v)));
        lemma_lookup_push(ps.drop_first(), name, v, k);
    }
}

} // verus!
