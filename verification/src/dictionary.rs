//! A map from names to values, kept as two lists side by side.

use vstd::prelude::*;

verus! {

/// A map from names to values. A name stands at most once among the keys
/// that count: the first occurrence of a name is its binding.
#[derive(Debug)]
pub struct Dictionary<V> {
    names: Vec<String>,
    values: Vec<V>,
}

/// The first offset at or after `from` where `names` holds `key`, or the
/// length of `names` where it does not.
pub open spec fn position(names: Seq<String>, key: Seq<char>, from: int) -> int
    decreases names.len() - from,
{
    if from < 0 || from >= names.len() {
        names.len() as int
    } else if names[from]@ == key {
        from
    } else {
        position(names, key, from + 1)
    }
}

/// `position` finds the key if and only if it occurs, and then its first
/// occurrence.
pub proof fn lemma_position(names: Seq<String>, key: Seq<char>, from: int)
    requires
        0 <= from <= names.len(),
    ensures
        from <= position(names, key, from) <= names.len(),
        position(names, key, from) < names.len() ==> names[position(names, key, from)]@ == key,
        forall|i: int| from <= i < position(names, key, from) ==> (#[trigger] names[i])@ != key,
    decreases names.len() - from,
{
    if from < names.len() && names[from]@ != key {
        lemma_position(names, key, from + 1);
    }
}

/// The offset that `position` gives is the first one that holds the key.
pub proof fn lemma_position_is(names: Seq<String>, key: Seq<char>, p: int)
    requires
        0 <= p <= names.len(),
        forall|i: int| 0 <= i < p ==> (#[trigger] names[i])@ != key,
        p < names.len() ==> names[p]@ == key,
    ensures
        position(names, key, 0) == p,
{
    lemma_position(names, key, 0);
}

impl<V> Dictionary<V> {
    /// Every name has its value.
    pub closed spec fn wf(&self) -> bool {
        self.names.len() == self.values.len()
    }

    /// The map that this dictionary holds.
    pub closed spec fn map(&self) -> Map<Seq<char>, V> {
        Map::new(
            |key: Seq<char>| position(self.names@, key, 0) < self.names.len(),
            |key: Seq<char>| self.values[position(self.names@, key, 0)],
        )
    }

    /// The empty dictionary.
    pub fn new() -> (r: Dictionary<V>)
        ensures
            r.wf(),
            r.map() == Map::<Seq<char>, V>::empty(),
    {
        let r = Dictionary { names: Vec::new(), values: Vec::new() };
        assert(r.map() =~= Map::<Seq<char>, V>::empty());
        r
    }

    /// The offset of `key` among the names, or their number if it is not
    /// among them.
    fn find(&self, key: &String) -> (r: usize)
        requires
            self.wf(),
        ensures
            r == position(self.names@, key@, 0),
            r <= self.names.len(),
    {
        let mut i: usize = 0;
        while i < self.names.len()
            invariant
                i <= self.names.len(),
                position(self.names@, key@, i as int) == position(self.names@, key@, 0),
            decreases self.names.len() - i,
        {
            if self.names[i] == *key {
                return i;
            }
            i += 1;
        }
        i
    }

    /// The value of `key`, if it has one.
    pub fn get(&self, key: &String) -> (r: Option<&V>)
        requires
            self.wf(),
        ensures
            match r {
                Some(v) => self.map().contains_key(key@) && self.map()[key@] == *v,
                None => !self.map().contains_key(key@),
            },
    {
        let i = self.find(key);
        if i < self.names.len() {
            Some(&self.values[i])
        } else {
            None
        }
    }

    /// Gives `key` the value `val`, in place of the one it had, if any.
    pub fn set(&mut self, key: String, val: V)
        requires
            old(self).wf(),
        ensures
            final(self).wf(),
            final(self).map() == old(self).map().insert(key@, val),
    {
        let i = self.find(&key);
        proof {
            lemma_position(self.names@, key@, 0);
        }
        if i < self.names.len() {
            self.values[i] = val;
            let ghost target = old(self).map().insert(key@, val);
            assert forall|k: Seq<char>|
                #![trigger self.map().contains_key(k)]
                #![trigger target.contains_key(k)]
                #![trigger self.map()[k]]
                #![trigger target[k]]
                self.map().contains_key(k) == target.contains_key(k) && (self.map().contains_key(k)
                    ==> self.map()[k] == target[k]) by {
                lemma_position(self.names@, k, 0);
            }
            assert(self.map() =~= target);
        } else {
            self.names.push(key);
            self.values.push(val);
            let ghost target = old(self).map().insert(key@, val);
            assert forall|k: Seq<char>|
                #![trigger self.map().contains_key(k)]
                #![trigger target.contains_key(k)]
                #![trigger self.map()[k]]
                #![trigger target[k]]
                self.map().contains_key(k) == target.contains_key(k) && (self.map().contains_key(k)
                    ==> self.map()[k] == target[k]) by {
                lemma_position(old(self).names@, k, 0);
                let q = position(old(self).names@, k, 0);
                if k == key@ {
                    lemma_position_is(self.names@, k, i as int);
                } else if q < i {
                    lemma_position_is(self.names@, k, q);
                } else {
                    lemma_position_is(self.names@, k, self.names.len() as int);
                }
            }
            assert(self.map() =~= target);
        }
    }
}

} // verus!
