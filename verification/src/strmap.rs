//! A string-keyed mapping held with strictly sorted keys, so that its
//! iteration order, and anything serialized from it, is a function of the
//! mapping alone.

use vstd::prelude::*;
use crate::text::{
    str_lt, str_lt_exec, str_eq_exec, lemma_str_lt_total, lemma_str_lt_transitive,
    lemma_str_lt_irreflexive, lemma_str_lt_asymmetric,
};

verus! {

/// The mapping denoted by an association list, later entries winning.
pub open spec fn map_of(s: Seq<(String, String)>) -> Map<Seq<char>, Seq<char>>
    decreases s.len(),
{
    if s.len() == 0 {
        Map::empty()
    } else {
        map_of(s.drop_last()).insert(s.last().0@, s.last().1@)
    }
}

/// Keys strictly increase in code-point order.
pub open spec fn pairs_sorted(s: Seq<(String, String)>) -> bool {
    forall|i: int, j: int| 0 <= i < j < s.len() ==> str_lt(#[trigger] s[i].0@, #[trigger] s[j].0@)
}

/// The entry list as plain character sequences.
pub open spec fn entries_of(s: Seq<(String, String)>) -> Seq<(Seq<char>, Seq<char>)> {
    Seq::new(s.len(), |i: int| (s[i].0@, s[i].1@))
}

pub proof fn lemma_map_of_contains(s: Seq<(String, String)>, k: Seq<char>)
    ensures
        map_of(s).contains_key(k) <==> exists|i: int| 0 <= i < s.len() && s[i].0@ == k,
    decreases s.len(),
{
    if s.len() > 0 {
        lemma_map_of_contains(s.drop_last(), k);
        if map_of(s).contains_key(k) {
            if s.last().0@ != k {
                let i = choose|i: int| 0 <= i < s.drop_last().len() && s.drop_last()[i].0@ == k;
                assert(s[i].0@ == k);
            } else {
                assert(s[s.len() - 1].0@ == k);
            }
        }
        if exists|i: int| 0 <= i < s.len() && s[i].0@ == k {
            let i = choose|i: int| 0 <= i < s.len() && s[i].0@ == k;
            if i < s.len() - 1 {
                assert(s.drop_last()[i].0@ == k);
            }
        }
    }
}

pub proof fn lemma_keys_distinct(s: Seq<(String, String)>)
    requires
        pairs_sorted(s),
    ensures
        forall|i: int, j: int| 0 <= i < j < s.len() ==> #[trigger] s[i].0@ != #[trigger] s[j].0@,
{
    assert forall|i: int, j: int| 0 <= i < j < s.len() implies #[trigger] s[i].0@
        != #[trigger] s[j].0@ by {
        lemma_str_lt_irreflexive(s[i].0@);
    }
}

pub proof fn lemma_map_of_index(s: Seq<(String, String)>, i: int)
    requires
        0 <= i < s.len(),
        forall|p: int, q: int| 0 <= p < q < s.len() ==> #[trigger] s[p].0@ != #[trigger] s[q].0@,
    ensures
        map_of(s).contains_key(s[i].0@),
        map_of(s)[s[i].0@] == s[i].1@,
    decreases s.len(),
{
    if i == s.len() - 1 {
    } else {
        lemma_map_of_index(s.drop_last(), i);
        assert(s.drop_last()[i] == s[i]);
        assert(s[i].0@ != s[s.len() - 1].0@);
    }
}

proof fn lemma_map_of_insert_at(s: Seq<(String, String)>, idx: int, p: (String, String))
    requires
        0 <= idx <= s.len(),
        forall|i: int| 0 <= i < s.len() ==> #[trigger] s[i].0@ != p.0@,
    ensures
        map_of(s.insert(idx, p)) == map_of(s).insert(p.0@, p.1@),
    decreases s.len(),
{
    let s2 = s.insert(idx, p);
    if idx == s.len() {
        assert(s2.drop_last() =~= s);
        assert(s2.last() == p);
    } else {
        assert(s2.last() == s.last());
        assert(s2.drop_last() =~= s.drop_last().insert(idx, p));
        assert(forall|i: int| 0 <= i < s.drop_last().len() ==> #[trigger] s.drop_last()[i].0@
            == s[i].0@);
        lemma_map_of_insert_at(s.drop_last(), idx, p);
        assert(s[s.len() - 1].0@ != p.0@);
        assert(map_of(s.drop_last()).insert(p.0@, p.1@).insert(s.last().0@, s.last().1@) =~= map_of(
            s.drop_last(),
        ).insert(s.last().0@, s.last().1@).insert(p.0@, p.1@));
    }
}

proof fn lemma_map_of_update(s: Seq<(String, String)>, idx: int, p: (String, String))
    requires
        0 <= idx < s.len(),
        s[idx].0@ == p.0@,
        forall|i: int, j: int| 0 <= i < j < s.len() ==> #[trigger] s[i].0@ != #[trigger] s[j].0@,
    ensures
        map_of(s.update(idx, p)) == map_of(s).insert(p.0@, p.1@),
    decreases s.len(),
{
    let s2 = s.update(idx, p);
    if idx == s.len() - 1 {
        assert(s2.drop_last() =~= s.drop_last());
        assert(s2.last() == p);
        assert(map_of(s.drop_last()).insert(p.0@, p.1@) =~= map_of(s.drop_last()).insert(
            s.last().0@,
            s.last().1@,
        ).insert(p.0@, p.1@));
    } else {
        assert(s2.last() == s.last());
        assert(s2.drop_last() =~= s.drop_last().update(idx, p));
        assert(forall|i: int| 0 <= i < s.drop_last().len() ==> #[trigger] s.drop_last()[i].0@
            == s[i].0@);
        lemma_map_of_update(s.drop_last(), idx, p);
        assert(s[s.len() - 1].0@ != p.0@);
        assert(map_of(s.drop_last()).insert(p.0@, p.1@).insert(s.last().0@, s.last().1@) =~= map_of(
            s.drop_last(),
        ).insert(s.last().0@, s.last().1@).insert(p.0@, p.1@));
    }
}

/// Dropping the last (largest-key) entry removes exactly that key.
proof fn lemma_drop_last_removes(s: Seq<(String, String)>)
    requires
        pairs_sorted(s),
        s.len() > 0,
    ensures
        pairs_sorted(s.drop_last()),
        map_of(s.drop_last()) == map_of(s).remove(s.last().0@),
        entries_of(s.drop_last()) == entries_of(s).drop_last(),
{
    let shorter = s.drop_last();
    lemma_keys_distinct(s);
    lemma_map_of_contains(shorter, s.last().0@);
    assert(!map_of(shorter).contains_key(s.last().0@)) by {
        if exists|i: int| 0 <= i < shorter.len() && shorter[i].0@ == s.last().0@ {
            let i = choose|i: int| 0 <= i < shorter.len() && shorter[i].0@ == s.last().0@;
            assert(s[i].0@ == s[s.len() - 1].0@);
        }
    }
    assert(map_of(shorter) =~= map_of(s).remove(s.last().0@));
    assert(entries_of(shorter) =~= entries_of(s).drop_last());
}

/// The sorted entry list is a function of the mapping it denotes: two
/// sorted lists denoting the same mapping are the same list, so anything
/// serialized from them is identical.
pub proof fn lemma_entries_canonical(s1: Seq<(String, String)>, s2: Seq<(String, String)>)
    requires
        pairs_sorted(s1),
        pairs_sorted(s2),
        map_of(s1) == map_of(s2),
    ensures
        entries_of(s1) == entries_of(s2),
    decreases s1.len(),
{
    lemma_keys_distinct(s1);
    lemma_keys_distinct(s2);
    if s1.len() == 0 {
        lemma_map_of_contains(s1, arbitrary());
        if s2.len() > 0 {
            lemma_map_of_index(s2, s2.len() - 1);
            lemma_map_of_contains(s1, s2.last().0@);
        }
        assert(entries_of(s1) =~= entries_of(s2));
    } else if s2.len() == 0 {
        lemma_map_of_index(s1, s1.len() - 1);
        lemma_map_of_contains(s2, s1.last().0@);
        assert(entries_of(s1) =~= entries_of(s2));
    } else {
        let l1 = s1.last();
        let l2 = s2.last();
        lemma_map_of_index(s1, s1.len() - 1);
        lemma_map_of_index(s2, s2.len() - 1);
        lemma_map_of_contains(s2, l1.0@);
        lemma_map_of_contains(s1, l2.0@);
        let i2 = choose|i: int| 0 <= i < s2.len() && s2[i].0@ == l1.0@;
        let i1 = choose|i: int| 0 <= i < s1.len() && s1[i].0@ == l2.0@;
        assert(l1.0@ == l2.0@) by {
            if i2 < s2.len() - 1 {
                assert(str_lt(s2[i2].0@, s2[s2.len() - 1].0@));
                if i1 < s1.len() - 1 {
                    assert(str_lt(s1[i1].0@, s1[s1.len() - 1].0@));
                    lemma_str_lt_asymmetric(l1.0@, l2.0@);
                } else {
                    assert(s1[i1].0@ == l2.0@);
                    lemma_str_lt_irreflexive(l1.0@);
                }
            } else {
                assert(s2[i2].0@ == l1.0@);
            }
        }
        assert(l1.1@ == map_of(s1)[l1.0@]);
        assert(l2.1@ == map_of(s2)[l2.0@]);
        lemma_drop_last_removes(s1);
        lemma_drop_last_removes(s2);
        lemma_entries_canonical(s1.drop_last(), s2.drop_last());
        assert(entries_of(s1) =~= entries_of(s2)) by {
            assert(entries_of(s1).drop_last() == entries_of(s2).drop_last());
            assert(entries_of(s1).drop_last().len() == s1.len() - 1);
            assert(entries_of(s2).drop_last().len() == s2.len() - 1);
            assert(s1.len() == s2.len());
            assert(forall|i: int| 0 <= i < s1.len() - 1 ==> entries_of(s1).drop_last()[i]
                == entries_of(s1)[i] && entries_of(s2).drop_last()[i] == entries_of(s2)[i]);
        }
    }
}

/// A mapping from strings to strings with strictly increasing keys.
pub struct StrMap {
    pub pairs: Vec<(String, String)>,
}

impl View for StrMap {
    type V = Map<Seq<char>, Seq<char>>;

    open spec fn view(&self) -> Map<Seq<char>, Seq<char>> {
        map_of(self.pairs@)
    }
}

impl StrMap {
    pub open spec fn wf(self) -> bool {
        pairs_sorted(self.pairs@)
    }

    /// The entries, in key order.
    pub open spec fn entries(self) -> Seq<(Seq<char>, Seq<char>)> {
        entries_of(self.pairs@)
    }

    pub fn new() -> (r: StrMap)
        ensures
            r@ == Map::<Seq<char>, Seq<char>>::empty(),
            r.wf(),
            r.entries() =~= Seq::<(Seq<char>, Seq<char>)>::empty(),
    {
        StrMap { pairs: Vec::new() }
    }

    pub fn clear(&mut self)
        ensures
            final(self)@ == Map::<Seq<char>, Seq<char>>::empty(),
            final(self).wf(),
            final(self).entries() =~= Seq::<(Seq<char>, Seq<char>)>::empty(),
    {
        self.pairs.clear();
    }

    /// The number of entries.
    pub fn len(&self) -> (r: usize)
        ensures
            r == self.entries().len(),
    {
        self.pairs.len()
    }

    /// Looks a key up.
    pub fn get(&self, k: &str) -> (r: Option<&String>)
        requires
            self.wf(),
        ensures
            match r {
                Some(v) => self@.contains_key(k@) && self@[k@] == v@,
                None => !self@.contains_key(k@),
            },
    {
        let n = self.pairs.len();
        let mut i: usize = 0;
        while i < n
            invariant
                i <= n,
                n == self.pairs@.len(),
                self.wf(),
                forall|j: int| 0 <= j < i ==> #[trigger] self.pairs@[j].0@ != k@,
            decreases n - i,
        {
            if str_eq_exec(self.pairs[i].0.as_str(), k) {
                proof {
                    lemma_keys_distinct(self.pairs@);
                    lemma_map_of_index(self.pairs@, i as int);
                }
                return Some(&self.pairs[i].1);
            }
            i = i + 1;
        }
        proof {
            lemma_map_of_contains(self.pairs@, k@);
        }
        None
    }

    /// True when the key is present.
    pub fn contains(&self, k: &str) -> (r: bool)
        requires
            self.wf(),
        ensures
            r == self@.contains_key(k@),
    {
        match self.get(k) {
            Some(_) => true,
            None => false,
        }
    }

    /// Inserts a key with its value, replacing any prior value.
    pub fn insert(&mut self, k: String, v: String)
        requires
            old(self).wf(),
        ensures
            final(self).wf(),
            final(self)@ == old(self)@.insert(k@, v@),
    {
        let n = self.pairs.len();
        let mut i: usize = 0;
        loop
            invariant
                i <= n,
                n == self.pairs@.len(),
                self == old(self),
                self.wf(),
                forall|j: int| 0 <= j < i ==> str_lt(#[trigger] self.pairs@[j].0@, k@),
            ensures
                i <= n,
                self == old(self),
                forall|j: int| 0 <= j < i ==> str_lt(#[trigger] self.pairs@[j].0@, k@),
                i < n ==> !str_lt(self.pairs@[i as int].0@, k@),
            decreases n - i,
        {
            if i == n {
                break;
            }
            if !str_lt_exec(self.pairs[i].0.as_str(), k.as_str()) {
                break;
            }
            i = i + 1;
        }
        proof {
            lemma_keys_distinct(self.pairs@);
        }
        if i < n && str_eq_exec(self.pairs[i].0.as_str(), k.as_str()) {
            let ghost oldpairs = self.pairs@;
            self.pairs.remove(i);
            self.pairs.insert(i, (k, v));
            proof {
                assert(self.pairs@ =~= oldpairs.update(i as int, self.pairs@[i as int]));
                lemma_map_of_update(oldpairs, i as int, self.pairs@[i as int]);
                assert forall|p: int, q: int| 0 <= p < q < self.pairs@.len() implies str_lt(
                    #[trigger] self.pairs@[p].0@,
                    #[trigger] self.pairs@[q].0@,
                ) by {
                    assert(oldpairs[p].0@ == self.pairs@[p].0@ || p == i);
                    assert(oldpairs[q].0@ == self.pairs@[q].0@ || q == i);
                    assert(str_lt(oldpairs[p].0@, oldpairs[q].0@));
                }
            }
        } else {
            let ghost oldpairs = self.pairs@;
            proof {
                if i < n {
                    lemma_str_lt_total(oldpairs[i as int].0@, k@);
                }
                assert forall|j: int| i <= j < n implies str_lt(
                    k@,
                    #[trigger] oldpairs[j].0@,
                ) by {
                    if j > i {
                        lemma_str_lt_transitive(k@, oldpairs[i as int].0@, oldpairs[j].0@);
                    }
                }
                assert forall|j: int| 0 <= j < n implies #[trigger] oldpairs[j].0@ != k@ by {
                    lemma_str_lt_irreflexive(oldpairs[j].0@);
                }
            }
            self.pairs.insert(i, (k, v));
            proof {
                lemma_map_of_insert_at(oldpairs, i as int, self.pairs@[i as int]);
                assert forall|p: int, q: int| 0 <= p < q < self.pairs@.len() implies str_lt(
                    #[trigger] self.pairs@[p].0@,
                    #[trigger] self.pairs@[q].0@,
                ) by {
                    if p < i && q > i {
                        assert(self.pairs@[p].0@ == oldpairs[p].0@);
                        assert(self.pairs@[q].0@ == oldpairs[q - 1].0@);
                        assert(str_lt(oldpairs[p].0@, oldpairs[q - 1].0@));
                    } else if p == i && q > i {
                        assert(self.pairs@[q].0@ == oldpairs[q - 1].0@);
                    } else if p < i && q == i {
                        assert(self.pairs@[p].0@ == oldpairs[p].0@);
                    } else if p < q && q < i {
                        assert(self.pairs@[p].0@ == oldpairs[p].0@);
                        assert(self.pairs@[q].0@ == oldpairs[q].0@);
                        assert(str_lt(oldpairs[p].0@, oldpairs[q].0@));
                    } else if i < p {
                        assert(self.pairs@[p].0@ == oldpairs[p - 1].0@);
                        assert(self.pairs@[q].0@ == oldpairs[q - 1].0@);
                        assert(str_lt(oldpairs[p - 1].0@, oldpairs[q - 1].0@));
                    }
                }
            }
        }
    }

    /// Hands the entry at an index out, for iteration in key order.
    pub fn entry_at(&self, i: usize) -> (r: (&String, &String))
        requires
            i < self.entries().len(),
        ensures
            r.0@ == self.entries()[i as int].0,
            r.1@ == self.entries()[i as int].1,
    {
        (&self.pairs[i].0, &self.pairs[i].1)
    }

    /// Two well-formed maps that denote the same mapping hold the same
    /// entries in the same order.
    pub proof fn lemma_canonical(m1: StrMap, m2: StrMap)
        requires
            m1.wf(),
            m2.wf(),
            m1@ == m2@,
        ensures
            m1.entries() == m2.entries(),
    {
        lemma_entries_canonical(m1.pairs@, m2.pairs@);
    }
}

} // verus!
