//! A table from names to values, where a later binding of a name hides an
//! earlier one, as an insertion into a hash map does.
//!
//! Bindings are kept in order; a lookup searches from the most recent one.
//! This makes it cheap to drop the bindings made after a point, which is how
//! scopes are left.
use vstd::prelude::*;
use crate::text::str_eq;

verus! {

/// The map that a sequence of bindings denotes: the last binding of a name wins.
pub open spec fn bindings_map<V>(s: Seq<(String, V)>) -> Map<Seq<char>, V>
    decreases s.len(),
{
    if s.len() == 0 {
        Map::empty()
    } else {
        bindings_map(s.drop_last()).insert(s.last().0@, s.last().1)
    }
}

pub struct Table<V> {
    entries: Vec<(String, V)>,
}

impl<V> Table<V> {
    /// The bindings, oldest first.
    pub closed spec fn bindings(&self) -> Seq<(String, V)> {
        self.entries@
    }

    /// The map from names to values.
    pub open spec fn view(&self) -> Map<Seq<char>, V> {
        bindings_map(self.bindings())
    }

    pub fn new() -> (t: Self)
        ensures
            t.bindings() == Seq::<(String, V)>::empty(),
            t.view() == Map::<Seq<char>, V>::empty(),
    {
        let t = Table { entries: Vec::new() };
        assert(bindings_map(t.bindings()) =~= Map::<Seq<char>, V>::empty());
        t
    }

    /// Binds `key` to `value`, hiding any earlier binding of `key`.
    pub fn insert(&mut self, key: String, value: V)
        ensures
            final(self).bindings() == old(self).bindings().push((key, value)),
            final(self).view() == old(self).view().insert(key@, value),
    {
        let ghost k = key@;
        self.entries.push((key, value));
        assert(self.bindings().drop_last() =~= old(self).bindings());
    }

    /// The bindings, oldest first.
    pub fn entries(&self) -> (r: &Vec<(String, V)>)
        ensures
            r@ == self.bindings(),
    {
        &self.entries
    }

    /// The table made of these bindings, oldest first.
    pub fn from_entries(entries: Vec<(String, V)>) -> (t: Self)
        ensures
            t.bindings() == entries@,
    {
        Table { entries }
    }

    /// The number of bindings made so far (a mark for [`Table::restore`]).
    pub fn mark(&self) -> (n: usize)
        ensures
            n == self.bindings().len(),
    {
        self.entries.len()
    }

    /// Drops the bindings made after `mark`.
    pub fn restore(&mut self, mark: usize)
        requires
            mark <= old(self).bindings().len(),
        ensures
            final(self).bindings() == old(self).bindings().subrange(0, mark as int),
    {
        while self.entries.len() > mark
            invariant
                mark <= self.entries@.len() <= old(self).bindings().len(),
                self.entries@ == old(self).bindings().subrange(0, self.entries@.len() as int),
            decreases self.entries@.len(),
        {
            self.entries.pop();
        }
    }

    /// The index of the most recent binding of `key`.
    fn find(&self, key: &str) -> (r: Option<usize>)
        ensures
            match r {
                Some(i) => i < self.bindings().len() && self.bindings()[i as int].0@ == key@
                    && self.view().contains_key(key@) && self.view()[key@] == self.bindings()[i as int].1,
                None => !self.view().contains_key(key@),
            },
    {
        let mut j = self.entries.len();
        assert(self.entries@.subrange(0, j as int) =~= self.entries@);
        while j > 0
            invariant
                j <= self.entries@.len(),
                forall|i: int| j <= i < self.entries@.len() ==> #[trigger] self.entries@[i].0@ != key@,
                bindings_map(self.entries@).contains_key(key@) == bindings_map(
                    self.entries@.subrange(0, j as int),
                ).contains_key(key@),
                bindings_map(self.entries@).contains_key(key@) ==> bindings_map(self.entries@)[key@]
                    == bindings_map(self.entries@.subrange(0, j as int))[key@],
            decreases j,
        {
            let ghost pre = self.entries@.subrange(0, j as int);
            assert(pre.drop_last() =~= self.entries@.subrange(0, j - 1));
            if str_eq(self.entries[j - 1].0.as_str(), key) {
                return Some(j - 1);
            }
            j = j - 1;
        }
        assert(self.entries@.subrange(0, 0) =~= Seq::<(String, V)>::empty());
        None
    }

    pub fn contains_key(&self, key: &str) -> (r: bool)
        ensures
            r == self.view().contains_key(key@),
    {
        self.find(key).is_some()
    }

    pub fn get(&self, key: &str) -> (r: Option<&V>)
        ensures
            match r {
                Some(v) => self.view().contains_key(key@) && *v == self.view()[key@],
                None => !self.view().contains_key(key@),
            },
    {
        match self.find(key) {
            Some(i) => Some(&self.entries[i].1),
            None => None,
        }
    }
}

} // verus!
