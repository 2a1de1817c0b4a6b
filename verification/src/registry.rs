//! A registry of what is shared between the sources of one address.
//!
//! A program makes one registry when it starts and hands it to whoever makes sources. The
//! first source of an address puts its entry in; every later source of that address finds it
//! there. Entries stay until the registry goes.

use crate::chars::same_text;
use vstd::prelude::*;
use vstd::string::*;

verus! {

/// The entries of a registry by their addresses; no address occurs twice.
pub struct Registry<V> {
    entries: Vec<(String, V)>,
}

/// Whether some entry has the address `key`.
pub open spec fn has_key<V>(entries: Seq<(Seq<char>, V)>, key: Seq<char>) -> bool {
    exists|i: int| 0 <= i < entries.len() && (#[trigger] entries[i]).0 == key
}

/// No address occurs twice.
pub open spec fn distinct_keys<V>(entries: Seq<(Seq<char>, V)>) -> bool {
    forall|i: int, j: int|
        0 <= i < j < entries.len() ==> (#[trigger] entries[i]).0 != (#[trigger] entries[j]).0
}

impl<V> View for Registry<V> {
    type V = Seq<(Seq<char>, V)>;

    /// The entries in the order in which they were put in.
    closed spec fn view(&self) -> Seq<(Seq<char>, V)> {
        self.entries@.map_values(|e: (String, V)| (e.0@, e.1))
    }
}

impl<V> Registry<V> {
    #[verifier::type_invariant]
    spec fn inv(&self) -> bool {
        distinct_keys(self@)
    }

    /// A registry without entries.
    pub fn new() -> (r: Self)
        ensures
            r@ == Seq::<(Seq<char>, V)>::empty(),
    {
        let r = Registry { entries: Vec::new() };
        proof {
            assert(r@ =~= Seq::<(Seq<char>, V)>::empty());
        }
        r
    }

    /// The number of entries.
    pub fn len(&self) -> (r: usize)
        ensures
            r == self@.len(),
            distinct_keys(self@),
    {
        proof {
            use_type_invariant(self);
        }
        self.entries.len()
    }

    /// The entry of the address `key`.
    pub fn get(&self, key: &str) -> (r: Option<&V>)
        ensures
            match r {
                Some(v) => exists|i: int|
                    0 <= i < self@.len() && #[trigger] self@[i] == (key@, *v),
                None => !has_key(self@, key@),
            },
    {
        let mut i: usize = 0;
        while i < self.entries.len()
            invariant
                i <= self.entries@.len(),
                self@.len() == self.entries@.len(),
                forall|t: int| 0 <= t < i ==> (#[trigger] self@[t]).0 != key@,
            decreases self.entries@.len() - i,
        {
            if same_text(self.entries[i].0.as_str(), key) {
                proof {
                    assert(self@[i as int] == (key@, self.entries@[i as int].1));
                }
                return Some(&self.entries[i].1);
            }
            i += 1;
        }
        None
    }

    /// Puts `value` in as the entry of the address `key`, unless the address has an entry: then
    /// the registry stays as it is, and `value` comes back.
    pub fn try_insert(&mut self, key: String, value: V) -> (r: Result<(), V>)
        ensures
            match r {
                Ok(_) => !has_key(old(self)@, key@) && final(self)@ == old(self)@.push(
                    (key@, value),
                ),
                Err(v) => has_key(old(self)@, key@) && v == value && final(self)@ == old(self)@,
            },
    {
        proof {
            use_type_invariant(&*self);
        }
        let found = self.get(key.as_str()).is_some();
        if found {
            return Err(value);
        }
        let mut entries: Vec<(String, V)> = Vec::new();
        let ghost before = self@;
        std::mem::swap(&mut entries, &mut self.entries);
        proof {
            assert(self@ =~= Seq::<(Seq<char>, V)>::empty());
        }
        entries.push((key, value));
        proof {
            let after = entries@.map_values(|e: (String, V)| (e.0@, e.1));
            assert(after =~= before.push((key@, value)));
            assert forall|i: int, j: int| 0 <= i < j < after.len() implies (#[trigger] after[i]).0
                != (#[trigger] after[j]).0 by {
                if j < before.len() {
                    assert(after[i] == before[i] && after[j] == before[j]);
                } else {
                    assert(after[i] == before[i]);
                }
            }
        }
        self.entries = entries;
        Ok(())
    }
}

} // verus!
