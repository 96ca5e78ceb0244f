//! `ParamMap`: a map from parameter names to values, as query strings,
//! form data and media type parameters give them.
use vstd::prelude::*;
use crate::headers::{Entry, index_of, index_from, lookup, set_entry};
use crate::text::{chars_of, string_of};

verus! {

/// No two entries have the same name.
pub open spec fn names_unique(entries: Seq<Entry>) -> bool {
    forall|i: int, j: int|
        0 <= i < j < entries.len() ==> #[trigger] entries[i].0 != #[trigger] entries[j].0
}

/// A map from names to values. Inserting a name that is present replaces
/// its value; names are kept in the order they were first inserted.
#[derive(Debug, Clone)]
pub struct ParamMap {
    entries: Vec<(String, String)>,
}

impl View for ParamMap {
    type V = Seq<Entry>;

    closed spec fn view(&self) -> Seq<Entry> {
        self.entries@.map_values(|e: (String, String)| (e.0@, e.1@))
    }
}

impl ParamMap {
    /// The view holds the entries' texts.
    proof fn lemma_view(&self)
        ensures
            self@.len() == self.entries@.len(),
            forall|i: int|
                0 <= i < self@.len() ==> #[trigger] self@[i] == (
                    self.entries@[i].0@,
                    self.entries@[i].1@,
                ),
    {
    }

    /// An empty map.
    pub fn new() -> (m: Self)
        ensures
            m@ == Seq::<Entry>::empty(),
            names_unique(m@),
    {
        let m = ParamMap { entries: Vec::new() };
        assert(names_unique(Seq::<Entry>::empty()));
        assert(m@ =~= Seq::<Entry>::empty());
        m
    }

    /// The index of the entry named `name`.
    fn position(&self, name: &String) -> (r: Option<usize>)
        ensures
            match r {
                Some(i) => index_of(self@, name@) == Some(i as int) && i < self@.len(),
                None => index_of(self@, name@) is None,
            },
    {
        proof {
            self.lemma_view();
        }
        let mut i: usize = 0;
        while i < self.entries.len()
            invariant
                i <= self@.len(),
                self@.len() == self.entries@.len(),
                forall|k: int|
                    0 <= k < self@.len() ==> #[trigger] self@[k] == (
                        self.entries@[k].0@,
                        self.entries@[k].1@,
                    ),
                index_of(self@, name@) == index_from(self@, name@, i as int),
            decreases self.entries.len() - i,
        {
            if self.entries[i].0 == *name {
                return Some(i);
            }
            i += 1;
        }
        None
    }

    /// Sets `name` to `value`.
    pub fn insert(&mut self, name: String, value: String)
        ensures
            final(self)@ == set_entry(old(self)@, name@, value@),
            names_unique(old(self)@) ==> names_unique(final(self)@),
    {
        proof {
            if names_unique(self@) {
                insert_keeps_names_unique(self@, name@, value@);
            }
        }
        match self.position(&name) {
            Some(i) => {
                let ghost n = name@;
                let ghost v = value@;
                self.entries.set(i, (name, value));
                assert(self@ =~= set_entry(old(self)@, n, v));
            },
            None => {
                let ghost n = name@;
                let ghost v = value@;
                self.entries.push((name, value));
                assert(self@ =~= set_entry(old(self)@, n, v));
            },
        }
    }

    /// The value of `name`, if present.
    pub fn get(&self, name: &str) -> (r: Option<&String>)
        ensures
            match lookup(self@, name@) {
                Some(v) => r matches Some(s) && s@ == v,
                None => r is None,
            },
    {
        let key = string_of(chars_of(name).as_slice());
        proof {
            self.lemma_view();
        }
        match self.position(&key) {
            Some(i) => Some(&self.entries[i].1),
            None => None,
        }
    }

    /// The number of names.
    pub fn len(&self) -> (r: usize)
        ensures
            r == self@.len(),
    {
        proof {
            self.lemma_view();
        }
        self.entries.len()
    }

    /// Whether the map is empty.
    pub fn is_empty(&self) -> (r: bool)
        ensures
            r == (self@.len() == 0),
    {
        proof {
            self.lemma_view();
        }
        self.entries.len() == 0
    }

    /// The (name, value) pairs, in order.
    pub fn iter(&self) -> (r: Vec<(&str, &str)>)
        ensures
            r@.map_values(|p: (&str, &str)| (p.0@, p.1@)) == self@,
    {
        proof {
            self.lemma_view();
        }
        let mut r: Vec<(&str, &str)> = Vec::new();
        let mut i: usize = 0;
        while i < self.entries.len()
            invariant
                i <= self@.len(),
                self@.len() == self.entries@.len(),
                forall|k: int|
                    0 <= k < self@.len() ==> #[trigger] self@[k] == (
                        self.entries@[k].0@,
                        self.entries@[k].1@,
                    ),
                r@.map_values(|p: (&str, &str)| (p.0@, p.1@)) == self@.take(i as int),
            decreases self.entries.len() - i,
        {
            assert(self@[i as int] == (self.entries@[i as int].0@, self.entries@[i as int].1@));
            let ghost before = r@.map_values(|p: (&str, &str)| (p.0@, p.1@));
            let name = self.entries[i].0.as_str();
            let value = self.entries[i].1.as_str();
            r.push((name, value));
            assert(r@.map_values(|p: (&str, &str)| (p.0@, p.1@)) =~= before.push((name@, value@)));
            assert(self@.take(i + 1) =~= self@.take(i as int).push(self@[i as int]));
            i += 1;
        }
        assert(self@.take(i as int) =~= self@);
        r
    }
}

/// Inserting keeps names unique.
pub proof fn insert_keeps_names_unique(entries: Seq<Entry>, name: Seq<char>, value: Seq<char>)
    requires
        names_unique(entries),
    ensures
        names_unique(set_entry(entries, name, value)),
{
    crate::headers::lemma_index_from(entries, name, 0);
    let e2 = set_entry(entries, name, value);
    assert forall|i: int, j: int| 0 <= i < j < e2.len() implies #[trigger] e2[i].0
        != #[trigger] e2[j].0 by {
        if j < entries.len() {
            if index_of(entries, name) == Some(j) {
                assert(entries[i].0 != name);
            } else if index_of(entries, name) == Some(i) {
                assert(entries[j].0 != entries[i].0);
            }
        } else {
            assert(e2[i] == entries[i]);
        }
    }
}

} // verus!
