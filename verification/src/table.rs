//! A table from names to values, each name at most once: the completion commands that
//! `complete -C` registers, and the shell's variables.
use vstd::prelude::*;
use crate::text::str_equals;

verus! {

/// The map that a list of (name, value) pairs stands for; a later pair for the same name
/// wins.
pub open spec fn pairs_map(s: Seq<(Seq<char>, Seq<char>)>) -> Map<Seq<char>, Seq<char>>
    decreases s.len(),
{
    if s.len() == 0 {
        Map::empty()
    } else {
        pairs_map(s.drop_last()).insert(s.last().0, s.last().1)
    }
}

/// No name appears twice.
pub open spec fn keys_unique(s: Seq<(Seq<char>, Seq<char>)>) -> bool {
    forall|i: int, j: int| 0 <= i < s.len() && 0 <= j < s.len() && i != j ==> s[i].0 != s[j].0
}

pub proof fn lemma_pairs_map(s: Seq<(Seq<char>, Seq<char>)>)
    requires
        keys_unique(s),
    ensures
        forall|k: Seq<char>|
            #[trigger] pairs_map(s).dom().contains(k) <==> exists|i: int|
                0 <= i < s.len() && s[i].0 == k,
        forall|i: int| 0 <= i < s.len() ==> #[trigger] pairs_map(s)[s[i].0] == s[i].1,
    decreases s.len(),
{
    if s.len() > 0 {
        let u = s.drop_last();
        assert(keys_unique(u)) by {
            assert forall|i: int, j: int|
                0 <= i < u.len() && 0 <= j < u.len() && i != j implies u[i].0 != u[j].0 by {
                assert(u[i] == s[i] && u[j] == s[j]);
            }
        }
        lemma_pairs_map(u);
        let last = s.last();
        assert forall|k: Seq<char>| #[trigger] pairs_map(s).dom().contains(k) <==> exists|i: int|
            0 <= i < s.len() && s[i].0 == k by {
            if pairs_map(s).dom().contains(k) {
                if k == last.0 {
                    assert(s[s.len() - 1].0 == k);
                } else {
                    assert(pairs_map(u).dom().contains(k));
                    let i = choose|i: int| 0 <= i < u.len() && u[i].0 == k;
                    assert(s[i] == u[i]);
                }
            }
            if exists|i: int| 0 <= i < s.len() && s[i].0 == k {
                let i = choose|i: int| 0 <= i < s.len() && s[i].0 == k;
                if i < u.len() {
                    assert(u[i] == s[i]);
                    assert(u[i].0 == k);
                    assert(pairs_map(u).dom().contains(k));
                }
            }
        }
        assert forall|i: int| 0 <= i < s.len() implies #[trigger] pairs_map(s)[s[i].0] == s[i].1 by {
            if i < u.len() {
                assert(u[i] == s[i]);
                assert(s[i].0 != last.0);
                assert(pairs_map(u)[u[i].0] == u[i].1);
                assert(pairs_map(u).dom().contains(u[i].0));
            }
        }
    }
}

/// The views of a list of pairs of strings.
pub open spec fn pairs_view(v: Seq<(String, String)>) -> Seq<(Seq<char>, Seq<char>)> {
    v.map_values(|p: (String, String)| (p.0@, p.1@))
}

/// Names with their values, each name at most once.
pub struct StringTable {
    pairs: Vec<(String, String)>,
}

impl StringTable {
    /// What the table holds: name to value.
    pub closed spec fn contents(&self) -> Map<Seq<char>, Seq<char>> {
        pairs_map(pairs_view(self.pairs@))
    }

    /// The table's internal consistency: no name twice.
    pub closed spec fn wf(&self) -> bool {
        keys_unique(pairs_view(self.pairs@))
    }

    /// The table as a list of (name, value) pairs.
    pub closed spec fn entries(&self) -> Seq<(Seq<char>, Seq<char>)> {
        pairs_view(self.pairs@)
    }

    /// An empty table.
    pub fn new() -> (t: StringTable)
        ensures
            t.wf(),
            t.contents() == Map::<Seq<char>, Seq<char>>::empty(),
            t.entries() == Seq::<(Seq<char>, Seq<char>)>::empty(),
    {
        let t = StringTable { pairs: Vec::new() };
        assert(pairs_view(t.pairs@) =~= Seq::<(Seq<char>, Seq<char>)>::empty());
        t
    }

    /// The table as a list of (name, value) pairs, each name once.
    pub fn pairs(&self) -> (r: &Vec<(String, String)>)
        requires
            self.wf(),
        ensures
            pairs_view(r@) == self.entries(),
            keys_unique(self.entries()),
            pairs_map(self.entries()) == self.contents(),
    {
        &self.pairs
    }

    /// The position of `name` among the pairs, if it is there.
    fn find(&self, name: &str) -> (r: Option<usize>)
        requires
            self.wf(),
        ensures
            match r {
                Some(i) => i < self.pairs@.len() && self.pairs@[i as int].0@ == name@,
                None => !self.contents().dom().contains(name@),
            },
    {
        proof {
            lemma_pairs_map(pairs_view(self.pairs@));
        }
        let mut i: usize = 0;
        while i < self.pairs.len()
            invariant
                i <= self.pairs@.len(),
                forall|k: int| 0 <= k < i ==> self.pairs@[k].0@ != name@,
            decreases self.pairs.len() - i,
        {
            if str_equals(self.pairs[i].0.as_str(), name) {
                return Some(i);
            }
            i += 1;
        }
        assert forall|k: int| 0 <= k < pairs_view(self.pairs@).len() implies pairs_view(
            self.pairs@,
        )[k].0 != name@ by {
            assert(pairs_view(self.pairs@)[k].0 == self.pairs@[k].0@);
        }
        None
    }

    /// Sets `name` to `value`, replacing any earlier value.
    pub fn insert(&mut self, name: String, value: String)
        requires
            old(self).wf(),
        ensures
            final(self).wf(),
            final(self).contents() == old(self).contents().insert(name@, value@),
    {
        let ghost old_pairs = pairs_view(self.pairs@);
        let ghost (t, p) = (name@, value@);
        proof {
            lemma_pairs_map(old_pairs);
        }
        match self.find(name.as_str()) {
            Some(i) => {
                self.pairs.set(i, (name, value));
                assert(pairs_view(self.pairs@) =~= old_pairs.update(i as int, (t, p)));
                proof {
                    lemma_pairs_map_update(old_pairs, i as int, p);
                }
            },
            None => {
                self.pairs.push((name, value));
                let ghost new_pairs = pairs_view(self.pairs@);
                assert(new_pairs =~= old_pairs.push((t, p)));
                assert(new_pairs.drop_last() =~= old_pairs);
                assert(keys_unique(new_pairs)) by {
                    assert forall|a: int, b: int|
                        0 <= a < new_pairs.len() && 0 <= b < new_pairs.len() && a != b implies new_pairs[a].0
                        != new_pairs[b].0 by {
                        if a < old_pairs.len() && b < old_pairs.len() {
                            assert(new_pairs[a] == old_pairs[a] && new_pairs[b] == old_pairs[b]);
                        } else if a < old_pairs.len() {
                            assert(new_pairs[a] == old_pairs[a]);
                            assert(pairs_map(old_pairs).dom().contains(old_pairs[a].0));
                        } else {
                            assert(new_pairs[b] == old_pairs[b]);
                            assert(pairs_map(old_pairs).dom().contains(old_pairs[b].0));
                        }
                    }
                }
            },
        }
    }

    /// The value of `name`, if it is there.
    pub fn get(&self, name: &str) -> (r: Option<&str>)
        requires
            self.wf(),
        ensures
            match r {
                Some(v) => self.contents().dom().contains(name@) && v@ == self.contents()[name@],
                None => !self.contents().dom().contains(name@),
            },
    {
        proof {
            lemma_pairs_map(pairs_view(self.pairs@));
        }
        match self.find(name) {
            Some(i) => {
                assert(pairs_view(self.pairs@)[i as int].0 == name@);
                Some(self.pairs[i].1.as_str())
            },
            None => None,
        }
    }

    /// Forgets `name`, if it is there.
    pub fn remove(&mut self, name: &str)
        requires
            old(self).wf(),
        ensures
            final(self).wf(),
            final(self).contents() == old(self).contents().remove(name@),
    {
        let ghost old_pairs = pairs_view(self.pairs@);
        match self.find(name) {
            Some(i) => {
                self.pairs.remove(i);
                assert(pairs_view(self.pairs@) =~= old_pairs.remove(i as int));
                proof {
                    lemma_pairs_map_remove(old_pairs, i as int);
                }
            },
            None => {
                assert(pairs_map(old_pairs).remove(name@) =~= pairs_map(old_pairs));
            },
        }
    }
}

/// Replacing the value of a name changes only that entry.
proof fn lemma_pairs_map_update(s: Seq<(Seq<char>, Seq<char>)>, i: int, v: Seq<char>)
    requires
        keys_unique(s),
        0 <= i < s.len(),
    ensures
        keys_unique(s.update(i, (s[i].0, v))),
        pairs_map(s.update(i, (s[i].0, v))) == pairs_map(s).insert(s[i].0, v),
    decreases s.len(),
{
    let k = s[i].0;
    let s2 = s.update(i, (k, v));
    assert forall|a: int, b: int|
        0 <= a < s2.len() && 0 <= b < s2.len() && a != b implies s2[a].0 != s2[b].0 by {
        assert(s2[a].0 == s[a].0 && s2[b].0 == s[b].0);
    }
    let u = s.drop_last();
    assert(keys_unique(u)) by {
        assert forall|a: int, b: int|
            0 <= a < u.len() && 0 <= b < u.len() && a != b implies u[a].0 != u[b].0 by {
            assert(u[a] == s[a] && u[b] == s[b]);
        }
    }
    if i == s.len() - 1 {
        assert(s2.drop_last() =~= u);
        assert(pairs_map(s2) =~= pairs_map(s).insert(k, v));
    } else {
        lemma_pairs_map_update(u, i, v);
        assert(s2.drop_last() =~= u.update(i, (k, v)));
        assert(s.last().0 != k);
        assert(pairs_map(s2) =~= pairs_map(s).insert(k, v));
    }
}

/// Dropping a name's entry removes just that name.
proof fn lemma_pairs_map_remove(s: Seq<(Seq<char>, Seq<char>)>, i: int)
    requires
        keys_unique(s),
        0 <= i < s.len(),
    ensures
        keys_unique(s.remove(i)),
        pairs_map(s.remove(i)) == pairs_map(s).remove(s[i].0),
    decreases s.len(),
{
    let k = s[i].0;
    let s2 = s.remove(i);
    assert forall|a: int, b: int|
        0 <= a < s2.len() && 0 <= b < s2.len() && a != b implies s2[a].0 != s2[b].0 by {
        let a2 = if a < i {
            a
        } else {
            a + 1
        };
        let b2 = if b < i {
            b
        } else {
            b + 1
        };
        assert(s2[a] == s[a2] && s2[b] == s[b2]);
    }
    let u = s.drop_last();
    assert(keys_unique(u)) by {
        assert forall|a: int, b: int|
            0 <= a < u.len() && 0 <= b < u.len() && a != b implies u[a].0 != u[b].0 by {
            assert(u[a] == s[a] && u[b] == s[b]);
        }
    }
    lemma_pairs_map(u);
    if i == s.len() - 1 {
        assert(s2 =~= u);
        assert(!pairs_map(u).dom().contains(k)) by {
            if pairs_map(u).dom().contains(k) {
                let j = choose|j: int| 0 <= j < u.len() && u[j].0 == k;
                assert(u[j] == s[j]);
            }
        }
        assert(pairs_map(s2) =~= pairs_map(s).remove(k));
    } else {
        lemma_pairs_map_remove(u, i);
        assert(s2.drop_last() =~= u.remove(i));
        assert(s2.last() == s.last());
        assert(s.last().0 != k);
        assert(pairs_map(s2) =~= pairs_map(s).remove(k));
    }
}

} // verus!
