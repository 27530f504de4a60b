//! A name-keyed map backed by an association list.
//!
//! The spec-level view is a `Map` from the name's characters to the spec
//! model of the stored value; a later insertion of a key shadows an
//! earlier one, which gives the same observable behaviour as a hash map
//! that overwrites on insert.

use vstd::prelude::*;
use crate::ast::SpecModel;

verus! {

/// The map of an association list: later entries win.
pub open spec fn assoc_m<T: SpecModel>(s: Seq<(String, T)>) -> Map<Seq<char>, T::M>
    decreases s.len(),
{
    if s.len() == 0 {
        Map::empty()
    } else {
        assoc_m(s.drop_last()).insert(s.last().0@, s.last().1.m())
    }
}

/// Entries at `i` and beyond that never mention `key` do not affect the
/// map at `key`.
proof fn lemma_assoc_skip<T: SpecModel>(s: Seq<(String, T)>, i: int, key: Seq<char>)
    requires
        0 <= i <= s.len(),
        forall|j: int| i <= j < s.len() ==> s[j].0@ != key,
    ensures
        assoc_m(s).contains_key(key) == assoc_m(s.take(i)).contains_key(key),
        assoc_m(s).contains_key(key) ==> assoc_m(s)[key] == assoc_m(s.take(i))[key],
    decreases s.len(),
{
    if i < s.len() {
        lemma_assoc_skip(s.drop_last(), i, key);
        assert(s.drop_last().take(i) =~= s.take(i));
    } else {
        assert(s.take(i) =~= s);
    }
}

/// Compares a stored name with a sought one.
pub fn string_eq(a: &String, b: &str) -> (r: bool)
    ensures
        r == (a@ == b@),
{
    let bs = String::from_str(b);
    *a == bs
}

/// A map from names to values, keyed by the name's characters.
pub struct NameMap<T> {
    entries: Vec<(String, T)>,
}

impl<T: SpecModel> NameMap<T> {
    /// The map this value represents.
    pub closed spec fn m(&self) -> Map<Seq<char>, T::M> {
        assoc_m(self.entries@)
    }

    /// An empty map.
    pub fn new() -> (res: Self)
        ensures
            res.m() == Map::<Seq<char>, T::M>::empty(),
    {
        NameMap { entries: Vec::new() }
    }

    /// Binds `name` to `value`, shadowing any earlier binding.
    pub fn insert(&mut self, name: &str, value: T)
        ensures
            final(self).m() == old(self).m().insert(name@, value.m()),
    {
        let owned: String = String::from_str(name);
        self.entries.push((owned, value));
        proof {
            assert(self.entries@.drop_last() =~= old(self).entries@);
        }
    }

    /// Looks `name` up.
    pub fn get<'a>(&'a self, name: &str) -> (res: Option<&'a T>)
        ensures
            match res {
                Some(v) => self.m().contains_key(name@) && v.m() == self.m()[name@],
                None => !self.m().contains_key(name@),
            },
    {
        let n = self.entries.len();
        let mut i = n;
        while i > 0
            invariant
                i <= n,
                n == self.entries.len(),
                forall|j: int| i <= j < n ==> self.entries@[j].0@ != name@,
            decreases i,
        {
            i = i - 1;
            if string_eq(&self.entries[i].0, name) {
                proof {
                    lemma_assoc_skip(self.entries@, i + 1, name@);
                    assert(self.entries@.take(i + 1).drop_last() =~= self.entries@.take(i as int));
                    assert(self.entries@.take(i + 1).last() == self.entries@[i as int]);
                }
                return Some(&self.entries[i].1);
            }
        }
        proof {
            lemma_assoc_skip(self.entries@, 0, name@);
            assert(self.entries@.take(0) =~= Seq::<(String, T)>::empty());
        }
        None
    }

    /// Whether `name` is bound.
    pub fn contains_key(&self, name: &str) -> (res: bool)
        ensures
            res == self.m().contains_key(name@),
    {
        match self.get(name) {
            Some(_) => true,
            None => false,
        }
    }
}

} // verus!
