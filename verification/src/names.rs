//! Name-keyed bindings of one scope.
//!
//! Each frame owns one map from variable names to values and one from
//! function names to declarations. The maps are small — one scope's
//! bindings — and are kept as vectors of pairs with pairwise-distinct keys,
//! viewed as mathematical maps from character sequences.

use vstd::prelude::*;
use vstd::string::*;

verus! {

/// Whether the character sequences `a` and `b` are the same text.
pub fn str_eq(a: &str, b: &str) -> (r: bool)
    ensures
        r == (a@ == b@),
{
    let la: usize = a.unicode_len();
    let lb: usize = b.unicode_len();
    if la != lb {
        assert(a@ != b@);
        return false;
    }
    let mut i: usize = 0;
    while i < la
        invariant
            0 <= i <= la,
            la == a@.len(),
            la == b@.len(),
            forall|j: int| 0 <= j < i ==> a@[j] == b@[j],
        decreases la - i,
    {
        let ca = a.get_char(i);
        let cb = b.get_char(i);
        if ca != cb {
            assert(a@[i as int] != b@[i as int]);
            return false;
        }
        i = i + 1;
    }
    proof {
        assert(a@ =~= b@);
    }
    true
}

/// The map a sequence of (name, value) pairs stands for, later pairs
/// winning; with pairwise-distinct keys every pair is visible.
pub open spec fn entries_as_map<V: View>(s: Seq<(String, V)>) -> Map<Seq<char>, V::V>
    decreases s.len(),
{
    if s.len() == 0 {
        Map::empty()
    } else {
        entries_as_map(s.drop_last()).insert(s.last().0@, s.last().1@)
    }
}

/// A scope's bindings: names mapped to values, each name bound once.
pub struct NameMap<V> {
    pub entries: Vec<(String, V)>,
}

impl<V: View> View for NameMap<V> {
    type V = Map<Seq<char>, V::V>;

    open spec fn view(&self) -> Map<Seq<char>, V::V> {
        entries_as_map(self.entries@)
    }
}

/// A key is in the map exactly when some pair carries it.
proof fn lemma_map_domain<V: View>(s: Seq<(String, V)>, name: Seq<char>)
    ensures
        entries_as_map(s).contains_key(name) <==> exists|i: int|
            0 <= i < s.len() && s[i].0@ == name,
    decreases s.len(),
{
    if s.len() > 0 {
        lemma_map_domain(s.drop_last(), name);
        if entries_as_map(s).contains_key(name) {
            if s.last().0@ != name {
                let i = choose|i: int| 0 <= i < s.drop_last().len() && s.drop_last()[i].0@ == name;
                assert(s[i].0@ == name);
            } else {
                assert(s[s.len() - 1].0@ == name);
            }
        }
        if exists|i: int| 0 <= i < s.len() && s[i].0@ == name {
            let i = choose|i: int| 0 <= i < s.len() && s[i].0@ == name;
            if i < s.len() - 1 {
                assert(s.drop_last()[i].0@ == name);
            }
        }
    }
}

/// With no later pair carrying the same key, the `i`-th pair's value is what
/// the map holds for its key.
proof fn lemma_map_get<V: View>(s: Seq<(String, V)>, i: int)
    requires
        0 <= i < s.len(),
        forall|j: int| i < j < s.len() ==> s[j].0@ != s[i].0@,
    ensures
        entries_as_map(s).contains_key(s[i].0@),
        entries_as_map(s)[s[i].0@] == s[i].1@,
    decreases s.len(),
{
    lemma_map_domain(s, s[i].0@);
    if i == s.len() - 1 {
    } else {
        assert(s.last().0@ != s[i].0@);
        assert(s.drop_last()[i] == s[i]);
        lemma_map_get(s.drop_last(), i);
    }
}

/// Replacing the `i`-th pair's value (key kept) updates just that key.
proof fn lemma_map_update<V: View>(s: Seq<(String, V)>, i: int, p: (String, V))
    requires
        0 <= i < s.len(),
        p.0@ == s[i].0@,
        forall|j: int| i < j < s.len() ==> s[j].0@ != s[i].0@,
    ensures
        entries_as_map(s.update(i, p)) == entries_as_map(s).insert(p.0@, p.1@),
    decreases s.len(),
{
    let su = s.update(i, p);
    if i == s.len() - 1 {
        assert(su.drop_last() =~= s.drop_last());
        assert(su.last() == p);
        assert(entries_as_map(su) =~= entries_as_map(s).insert(p.0@, p.1@));
    } else {
        assert(su.drop_last() =~= s.drop_last().update(i, p));
        assert(su.last() == s.last());
        assert(s.drop_last()[i] == s[i]);
        lemma_map_update(s.drop_last(), i, p);
        assert(entries_as_map(su) == entries_as_map(s.drop_last().update(i, p)).insert(
            s.last().0@,
            s.last().1@,
        ));
        assert(entries_as_map(su) =~= entries_as_map(s).insert(p.0@, p.1@));
    }
}

impl<V: View> NameMap<V> {
    /// Whether every pair carries a distinct name.
    pub open spec fn wf(&self) -> bool {
        forall|i: int, j: int|
            0 <= i < j < self.entries@.len() ==> self.entries@[i].0@ != self.entries@[j].0@
    }

    /// An empty scope's bindings.
    pub fn new() -> (r: NameMap<V>)
        ensures
            r@ == Map::<Seq<char>, V::V>::empty(),
            r.wf(),
    {
        NameMap { entries: Vec::new() }
    }

    /// The value bound to `name`, if any.
    pub fn get(&self, name: &str) -> (r: Option<&V>)
        requires
            self.wf(),
        ensures
            match r {
                Some(v) => self@.contains_key(name@) && v@ == self@[name@],
                None => !self@.contains_key(name@),
            },
    {
        let n: usize = self.entries.len();
        let mut i: usize = 0;
        while i < n
            invariant
                0 <= i <= n,
                n == self.entries@.len(),
                self.wf(),
                forall|j: int| 0 <= j < i ==> self.entries@[j].0@ != name@,
            decreases n - i,
        {
            if str_eq(self.entries[i].0.as_str(), name) {
                proof {
                    lemma_map_get(self.entries@, i as int);
                }
                return Some(&self.entries[i].1);
            }
            i = i + 1;
        }
        proof {
            lemma_map_domain(self.entries@, name@);
        }
        None
    }

    /// Whether `name` is bound.
    pub fn contains(&self, name: &str) -> (r: bool)
        requires
            self.wf(),
        ensures
            r == self@.contains_key(name@),
    {
        match self.get(name) {
            Some(_) => true,
            None => false,
        }
    }

    /// Binds the fresh `name` to `v`.
    pub fn insert_new(&mut self, name: String, v: V)
        requires
            old(self).wf(),
            !old(self)@.contains_key(name@),
        ensures
            final(self).wf(),
            final(self)@ == old(self)@.insert(name@, v@),
    {
        proof {
            lemma_map_domain(self.entries@, name@);
        }
        let ghost entries0 = self.entries@;
        self.entries.push((name, v));
        proof {
            assert(self.entries@.drop_last() =~= entries0);
            assert forall|i: int, j: int|
                0 <= i < j < self.entries@.len() implies self.entries@[i].0@
                != self.entries@[j].0@ by {
                if j < self.entries@.len() - 1 {
                    assert(self.entries@[i] == entries0[i]);
                    assert(self.entries@[j] == entries0[j]);
                } else {
                    assert(self.entries@[i] == entries0[i]);
                }
            }
        }
    }

    /// Rebinds the existing `name` to `v`.
    pub fn set_value(&mut self, name: &str, v: V)
        requires
            old(self).wf(),
            old(self)@.contains_key(name@),
        ensures
            final(self).wf(),
            final(self)@ == old(self)@.insert(name@, v@),
    {
        proof {
            lemma_map_domain(self.entries@, name@);
        }
        let n: usize = self.entries.len();
        let mut i: usize = 0;
        while i < n
            invariant
                0 <= i <= n,
                n == self.entries@.len(),
                old(self) == self,
                self.wf(),
                exists|j: int| 0 <= j < n && self.entries@[j].0@ == name@,
                forall|j: int| 0 <= j < i ==> self.entries@[j].0@ != name@,
            decreases n - i,
        {
            if str_eq(self.entries[i].0.as_str(), name) {
                let key = self.entries[i].0.clone();
                let ghost entries0 = self.entries@;
                let ghost keyview = key@;
                let slot = vstd::std_specs::vec::vec_index_mut(&mut self.entries, i);
                *slot = (key, v);
                proof {
                    assert(self.entries@ == entries0.update(i as int, self.entries@[i as int]));
                    assert(self.entries@[i as int].0@ == keyview);
                    lemma_map_update(entries0, i as int, self.entries@[i as int]);
                    assert forall|a: int, b: int|
                        0 <= a < b < self.entries@.len() implies self.entries@[a].0@
                        != self.entries@[b].0@ by {
                        if a != i && b != i {
                            assert(self.entries@[a] == entries0[a]);
                            assert(self.entries@[b] == entries0[b]);
                        }
                    }
                }
                return ;
            }
            i = i + 1;
        }
        proof {
            assert(false);
        }
    }

    /// Removes every binding.
    pub fn clear(&mut self)
        ensures
            final(self).wf(),
            final(self)@ == Map::<Seq<char>, V::V>::empty(),
    {
        self.entries.clear();
    }
}

} // verus!
