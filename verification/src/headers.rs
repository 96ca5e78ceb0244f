//! `Headers`: an ordered, case-insensitive header map.
use vstd::prelude::*;
use crate::text::{chars_of, lower, lower_all, lower_chars, push_str, string_of};

verus! {

/// A header entry as text: (name, value).
pub type Entry = (Seq<char>, Seq<char>);

/// The index of the first entry named `name`, searching from `from` on.
pub open spec fn index_from(entries: Seq<Entry>, name: Seq<char>, from: int) -> Option<int>
    decreases entries.len() - from,
{
    if from < 0 || from >= entries.len() {
        None
    } else if entries[from].0 == name {
        Some(from)
    } else {
        index_from(entries, name, from + 1)
    }
}

/// The index of the first entry named `name`.
pub open spec fn index_of(entries: Seq<Entry>, name: Seq<char>) -> Option<int> {
    index_from(entries, name, 0)
}

/// The value of the first entry named `name`.
pub open spec fn lookup(entries: Seq<Entry>, name: Seq<char>) -> Option<Seq<char>> {
    match index_of(entries, name) {
        Some(i) => Some(entries[i].1),
        None => None,
    }
}

/// The values of all entries named `name`, in order.
pub open spec fn values_of(entries: Seq<Entry>, name: Seq<char>) -> Seq<Seq<char>>
    decreases entries.len(),
{
    if entries.len() == 0 {
        seq![]
    } else if entries.last().0 == name {
        values_of(entries.drop_last(), name).push(entries.last().1)
    } else {
        values_of(entries.drop_last(), name)
    }
}

/// The entries not named `name`, in order.
pub open spec fn without(entries: Seq<Entry>, name: Seq<char>) -> Seq<Entry>
    decreases entries.len(),
{
    if entries.len() == 0 {
        seq![]
    } else if entries.last().0 == name {
        without(entries.drop_last(), name)
    } else {
        without(entries.drop_last(), name).push(entries.last())
    }
}

/// Setting `name` to `value` in a map: the first entry of that name gets the
/// value, or a new entry is added at the end (in a map whose names occur
/// once, as `ParamMap` keeps them, that entry is the only one).
pub open spec fn set_entry(entries: Seq<Entry>, name: Seq<char>, value: Seq<char>) -> Seq<Entry> {
    match index_of(entries, name) {
        Some(i) => entries.update(i, (name, value)),
        None => entries.push((name, value)),
    }
}

/// The entries with the first one named `name` given the value `value` and
/// every later one of that name left out.
pub open spec fn replace_first(entries: Seq<Entry>, name: Seq<char>, value: Seq<char>) -> Seq<
    Entry,
>
    decreases entries.len(),
{
    if entries.len() == 0 {
        seq![]
    } else {
        let init = replace_first(entries.drop_last(), name, value);
        if entries.last().0 == name {
            if values_of(entries.drop_last(), name).len() == 0 {
                init.push((name, value))
            } else {
                init
            }
        } else {
            init.push(entries.last())
        }
    }
}

/// Setting the header `name` to `value`: an existing header of that name is
/// replaced (its first entry takes the value, later entries of that name go),
/// or a new entry is added at the end.
pub open spec fn set_header(entries: Seq<Entry>, name: Seq<char>, value: Seq<char>) -> Seq<Entry> {
    if values_of(entries, name).len() == 0 {
        entries.push((name, value))
    } else {
        replace_first(entries, name, value)
    }
}

/// Every entry's name is in ASCII lower case.
pub open spec fn names_lowercase(entries: Seq<Entry>) -> bool {
    forall|i: int| 0 <= i < entries.len() ==> lower_all(#[trigger] entries[i].0) == entries[i].0
}

/// The HTTP/1.1 lines of the entries: `name: value\r\n` each.
pub open spec fn http1_lines(entries: Seq<Entry>) -> Seq<char>
    decreases entries.len(),
{
    if entries.len() == 0 {
        seq![]
    } else {
        http1_lines(entries.drop_last()) + entries.last().0 + ": "@ + entries.last().1 + "\r\n"@
    }
}

/// Case-insensitive HTTP header map.
#[derive(Debug)]
pub struct Headers {
    entries: Vec<(String, String)>,
}

impl View for Headers {
    type V = Seq<Entry>;

    closed spec fn view(&self) -> Seq<Entry> {
        self.entries@.map_values(|e: (String, String)| (e.0@, e.1@))
    }
}

impl Default for Headers {
    fn default() -> (h: Self)
        ensures
            h@ == Seq::<Entry>::empty(),
    {
        Headers::new()
    }
}

/// Lower case twice is lower case once.
proof fn lemma_lower_idempotent(s: Seq<char>)
    ensures
        lower_all(lower_all(s)) == lower_all(s),
{
    assert(lower_all(lower_all(s)) =~= lower_all(s));
}

/// What `index_from` finds: the first entry of that name from `from` on.
pub proof fn lemma_index_from(entries: Seq<Entry>, name: Seq<char>, from: int)
    requires
        0 <= from,
    ensures
        match index_from(entries, name, from) {
            Some(i) => from <= i < entries.len() && entries[i].0 == name && forall|j: int|
                from <= j < i ==> #[trigger] entries[j].0 != name,
            None => forall|j: int| from <= j < entries.len() ==> #[trigger] entries[j].0 != name,
        },
    decreases entries.len() - from,
{
    if from < entries.len() && entries[from].0 != name {
        lemma_index_from(entries, name, from + 1);
    }
}

impl Clone for Headers {
    /// A copy of the header map.
    fn clone(&self) -> (r: Self)
        ensures
            r@ == self@,
    {
        proof {
            use_type_invariant(self);
            self.lemma_view();
        }
        let mut es: Vec<(String, String)> = Vec::new();
        let mut i: usize = 0;
        while i < self.entries.len()
            invariant
                i <= self@.len(),
                self@.len() == self.entries@.len(),
                forall|k: int|
                    0 <= k < self@.len() ==> #[trigger] self@[k] == (
                        self.entries@[k].0@,
                        self.entries@[k].1@,
                    ),
                es@.map_values(|e: (String, String)| (e.0@, e.1@)) == self@.take(i as int),
            decreases self.entries.len() - i,
        {
            let ghost before = es@.map_values(|e: (String, String)| (e.0@, e.1@));
            let e = (self.entries[i].0.clone(), self.entries[i].1.clone());
            es.push(e);
            assert(es@.map_values(|e: (String, String)| (e.0@, e.1@)) =~= before.push(
                self@[i as int],
            ));
            assert(self@.take(i + 1) =~= self@.take(i as int).push(self@[i as int]));
            i += 1;
        }
        assert(self@.take(i as int) =~= self@);
        Headers { entries: es }
    }
}

impl Headers {
    /// Every name is in lower case.
    #[verifier::type_invariant]
    closed spec fn wf(self) -> bool {
        names_lowercase(self@)
    }

    /// The view holds the entries' texts.
    proof fn lemma_view(&self)
        ensures
            self@.len() == self.entries@.len(),
            forall|i: int|
                0 <= i < self@.len() ==> #[trigger] self@[i] == (
                    self.entries@[i].0@,
                    self.entries@[i].1@,
                ),
    {
    }

    /// Creates an empty header map.
    pub fn new() -> (h: Self)
        ensures
            h@ == Seq::<Entry>::empty(),
    {
        let h = Headers { entries: Vec::new() };
        assert(h@ =~= Seq::<Entry>::empty());
        h
    }

    /// The index of the first entry named `name`.
    fn position(&self, name: &String) -> (r: Option<usize>)
        ensures
            match r {
                Some(i) => index_of(self@, name@) == Some(i as int) && i < self@.len(),
                None => index_of(self@, name@) is None,
            },
    {
        proof {
            self.lemma_view();
        }
        let mut i: usize = 0;
        while i < self.entries.len()
            invariant
                i <= self@.len(),
                self@.len() == self.entries@.len(),
                forall|k: int|
                    0 <= k < self@.len() ==> #[trigger] self@[k] == (
                        self.entries@[k].0@,
                        self.entries@[k].1@,
                    ),
                index_of(self@, name@) == index_from(self@, name@, i as int),
            decreases self.entries.len() - i,
        {
            if self.entries[i].0 == *name {
                return Some(i);
            }
            i += 1;
        }
        None
    }

    /// Inserts a header. If the header already exists, it is replaced.
    pub fn set(&mut self, name: &str, value: &str)
        ensures
            final(self)@ == set_header(old(self)@, lower_all(name@), value@),
            names_lowercase(final(self)@),
    {
        let lower = string_of(lower_chars(chars_of(name).as_slice()).as_slice());
        let value_string = string_of(chars_of(value).as_slice());
        let ghost key = lower_all(name@);
        let ghost before = self@;
        proof {
            lemma_lower_idempotent(name@);
            use_type_invariant(&*self);
            self.lemma_view();
        }
        let mut out: Vec<(String, String)> = Vec::new();
        let mut placed = false;
        let mut i: usize = 0;
        assert(before.take(0) =~= seq![]);
        while i < self.entries.len()
            invariant
                i <= before.len(),
                lower@ == key,
                value_string@ == value@,
                before == self@,
                before.len() == self.entries@.len(),
                forall|k: int|
                    0 <= k < before.len() ==> #[trigger] before[k] == (
                        self.entries@[k].0@,
                        self.entries@[k].1@,
                    ),
                out@.map_values(|e: (String, String)| (e.0@, e.1@)) == replace_first(
                    before.take(i as int),
                    key,
                    value@,
                ),
                placed == (values_of(before.take(i as int), key).len() > 0),
            decreases self.entries.len() - i,
        {
            let ghost old_out = out@.map_values(|e: (String, String)| (e.0@, e.1@));
            assert(before.take(i + 1).drop_last() =~= before.take(i as int));
            assert(before.take(i + 1).last() == before[i as int]);
            if self.entries[i].0 == lower {
                if !placed {
                    out.push((lower.clone(), value_string.clone()));
                    assert(out@.map_values(|e: (String, String)| (e.0@, e.1@)) =~= old_out.push(
                        (key, value@),
                    ));
                    placed = true;
                }
            } else {
                let e = (self.entries[i].0.clone(), self.entries[i].1.clone());
                out.push(e);
                assert(out@.map_values(|e: (String, String)| (e.0@, e.1@)) =~= old_out.push(
                    before[i as int],
                ));
            }
            i += 1;
        }
        assert(before.take(i as int) =~= before);
        if !placed {
            let ghost old_out = out@.map_values(|e: (String, String)| (e.0@, e.1@));
            out.push((lower, value_string));
            assert(out@.map_values(|e: (String, String)| (e.0@, e.1@)) =~= old_out.push(
                (key, value@),
            ));
            assert(replace_first(before, key, value@) =~= before) by {
                lemma_replace_first_unnamed(before, key, value@);
            }
        }
        proof {
            lemma_set_header_lowercase(before, key, value@);
        }
        self.entries = out;
    }

    /// Appends a header value (for headers that allow multiple values).
    pub fn append(&mut self, name: &str, value: &str)
        ensures
            final(self)@ == old(self)@.push((lower_all(name@), value@)),
            names_lowercase(final(self)@),
    {
        let lower = string_of(lower_chars(chars_of(name).as_slice()).as_slice());
        let value_string = string_of(chars_of(value).as_slice());
        let ghost before = self@;
        proof {
            lemma_lower_idempotent(name@);
            use_type_invariant(&*self);
        }
        let mut es: Vec<(String, String)> = Vec::new();
        std::mem::swap(&mut es, &mut self.entries);
        assert(es@.map_values(|e: (String, String)| (e.0@, e.1@)) == before);
        es.push((lower, value_string));
        let ghost after = es@.map_values(|e: (String, String)| (e.0@, e.1@));
        assert(after =~= before.push((lower_all(name@), value@)));
        assert(names_lowercase(after)) by {
            assert forall|i: int| 0 <= i < after.len() implies lower_all(#[trigger] after[i].0)
                == after[i].0 by {
                if i < before.len() {
                    assert(after[i] == before[i]);
                }
            }
        }
        self.entries = es;
    }

    /// Gets the first value for the given header name (case-insensitive).
    pub fn get(&self, name: &str) -> (r: Option<&str>)
        ensures
            match lookup(self@, lower_all(name@)) {
                Some(v) => r matches Some(s) && s@ == v,
                None => r is None,
            },
    {
        let lower = string_of(lower_chars(chars_of(name).as_slice()).as_slice());
        proof {
            self.lemma_view();
        }
        match self.position(&lower) {
            Some(i) => Some(self.entries[i].1.as_str()),
            None => None,
        }
    }

    /// Gets all values for the given header name (case-insensitive).
    pub fn get_all(&self, name: &str) -> (r: Vec<&str>)
        ensures
            r@.map_values(|s: &str| s@) == values_of(self@, lower_all(name@)),
    {
        let lower = string_of(lower_chars(chars_of(name).as_slice()).as_slice());
        let ghost key = lower_all(name@);
        proof {
            self.lemma_view();
        }
        let mut r: Vec<&str> = Vec::new();
        let mut i: usize = 0;
        assert(self@.take(0) =~= seq![]);
        while i < self.entries.len()
            invariant
                i <= self@.len(),
                lower@ == key,
                self@.len() == self.entries@.len(),
                forall|k: int|
                    0 <= k < self@.len() ==> #[trigger] self@[k] == (
                        self.entries@[k].0@,
                        self.entries@[k].1@,
                    ),
                r@.map_values(|s: &str| s@) == values_of(self@.take(i as int), key),
            decreases self.entries.len() - i,
        {
            let ghost before = r@;
            assert(self@.take(i + 1).drop_last() =~= self@.take(i as int));
            if self.entries[i].0 == lower {
                r.push(self.entries[i].1.as_str());
                assert(r@.map_values(|s: &str| s@) =~= before.map_values(|s: &str| s@).push(
                    self@[i as int].1,
                ));
            }
            i += 1;
        }
        assert(self@.take(i as int) =~= self@);
        r
    }

    /// Removes all entries for the given header name.
    pub fn remove(&mut self, name: &str)
        ensures
            final(self)@ == without(old(self)@, lower_all(name@)),
            names_lowercase(final(self)@),
    {
        let lower = string_of(lower_chars(chars_of(name).as_slice()).as_slice());
        let ghost key = lower_all(name@);
        let ghost before = self@;
        proof {
            use_type_invariant(&*self);
            self.lemma_view();
        }
        let mut kept: Vec<(String, String)> = Vec::new();
        let mut i: usize = 0;
        assert(before.take(0) =~= seq![]);
        while i < self.entries.len()
            invariant
                i <= before.len(),
                lower@ == key,
                before == self@,
                before.len() == self.entries@.len(),
                forall|k: int|
                    0 <= k < before.len() ==> #[trigger] before[k] == (
                        self.entries@[k].0@,
                        self.entries@[k].1@,
                    ),
                kept@.map_values(|e: (String, String)| (e.0@, e.1@)) == without(
                    before.take(i as int),
                    key,
                ),
            decreases self.entries.len() - i,
        {
            let ghost old_kept = kept@.map_values(|e: (String, String)| (e.0@, e.1@));
            assert(before.take(i + 1).drop_last() =~= before.take(i as int));
            if self.entries[i].0 != lower {
                let e = (self.entries[i].0.clone(), self.entries[i].1.clone());
                kept.push(e);
                assert(kept@.map_values(|e: (String, String)| (e.0@, e.1@)) =~= old_kept.push(
                    before[i as int],
                ));
            }
            i += 1;
        }
        assert(before.take(i as int) =~= before);
        proof {
            lemma_without_lowercase(before, key);
        }
        self.entries = kept;
    }

    /// Returns `true` if the header exists.
    pub fn contains(&self, name: &str) -> (r: bool)
        ensures
            r == (index_of(self@, lower_all(name@)) is Some),
    {
        let lower = string_of(lower_chars(chars_of(name).as_slice()).as_slice());
        self.position(&lower).is_some()
    }

    /// Returns the number of header entries.
    pub fn len(&self) -> (r: usize)
        ensures
            r == self@.len(),
    {
        proof {
            self.lemma_view();
        }
        self.entries.len()
    }

    /// Returns `true` if there are no headers.
    pub fn is_empty(&self) -> (r: bool)
        ensures
            r == (self@.len() == 0),
    {
        proof {
            self.lemma_view();
        }
        self.entries.len() == 0
    }

    /// The (name, value) pairs, in order.
    pub fn iter(&self) -> (r: Vec<(&str, &str)>)
        ensures
            r@.map_values(|p: (&str, &str)| (p.0@, p.1@)) == self@,
            names_lowercase(self@),
    {
        proof {
            use_type_invariant(self);
            self.lemma_view();
        }
        let mut r: Vec<(&str, &str)> = Vec::new();
        let mut i: usize = 0;
        while i < self.entries.len()
            invariant
                i <= self@.len(),
                self@.len() == self.entries@.len(),
                forall|k: int|
                    0 <= k < self@.len() ==> #[trigger] self@[k] == (
                        self.entries@[k].0@,
                        self.entries@[k].1@,
                    ),
                r@.map_values(|p: (&str, &str)| (p.0@, p.1@)) == self@.take(i as int),
            decreases self.entries.len() - i,
        {
            assert(self@[i as int] == (self.entries@[i as int].0@, self.entries@[i as int].1@));
            let ghost before = r@.map_values(|p: (&str, &str)| (p.0@, p.1@));
            let name = self.entries[i].0.as_str();
            let value = self.entries[i].1.as_str();
            r.push((name, value));
            assert(r@.map_values(|p: (&str, &str)| (p.0@, p.1@)) =~= before.push((name@, value@)));
            assert(self@.take(i + 1) =~= self@.take(i as int).push(self@[i as int]));
            i += 1;
        }
        assert(self@.take(i as int) =~= self@);
        r
    }

    /// Serializes headers to HTTP/1.1 wire format.
    pub fn to_http1(&self) -> (r: String)
        ensures
            r@ == http1_lines(self@),
            names_lowercase(self@),
    {
        proof {
            use_type_invariant(self);
            self.lemma_view();
        }
        let mut out = String::new();
        let mut i: usize = 0;
        assert(self@.take(0) =~= seq![]);
        while i < self.entries.len()
            invariant
                i <= self@.len(),
                self@.len() == self.entries@.len(),
                forall|k: int|
                    0 <= k < self@.len() ==> #[trigger] self@[k] == (
                        self.entries@[k].0@,
                        self.entries@[k].1@,
                    ),
                out@ == http1_lines(self@.take(i as int)),
            decreases self.entries.len() - i,
        {
            assert(self@.take(i + 1).drop_last() =~= self@.take(i as int));
            push_str(&mut out, self.entries[i].0.as_str());
            push_str(&mut out, ": ");
            push_str(&mut out, self.entries[i].1.as_str());
            push_str(&mut out, "\r\n");
            i += 1;
        }
        assert(self@.take(i as int) =~= self@);
        out
    }
}

/// After a header is set, it holds exactly the value set: its old values are
/// gone, every other header keeps its values, and the number of entries
/// drops by the old number of that header's entries, less one.
pub proof fn set_replaces_header(
    entries: Seq<Entry>,
    name: Seq<char>,
    value: Seq<char>,
    other: Seq<char>,
)
    ensures
        values_of(set_header(entries, name, value), name) == seq![value],
        lookup(set_header(entries, name, value), name) == Some(value),
        other != name ==> values_of(set_header(entries, name, value), other) == values_of(
            entries,
            other,
        ),
        other != name ==> lookup(set_header(entries, name, value), other) == lookup(
            entries,
            other,
        ),
        set_header(entries, name, value).len() == entries.len() - values_of(entries, name).len()
            + 1,
{
    let e2 = set_header(entries, name, value);
    lemma_replace_first(entries, name, value, other);
    if values_of(entries, name).len() == 0 {
        assert(e2.drop_last() =~= entries);
        if other != name {
            lemma_values_of_unnamed(entries, e2, other);
        }
        assert(values_of(e2, name) =~= seq![value]);
    }
    lemma_lookup_values(e2, name);
    lemma_lookup_values(e2, other);
    lemma_lookup_values(entries, other);
}

/// What `replace_first` keeps: the one value of `name`, where there was one,
/// the values of every other name, and the count.
proof fn lemma_replace_first(
    entries: Seq<Entry>,
    name: Seq<char>,
    value: Seq<char>,
    other: Seq<char>,
)
    ensures
        values_of(replace_first(entries, name, value), name) == if values_of(
            entries,
            name,
        ).len() == 0 {
            Seq::<Seq<char>>::empty()
        } else {
            seq![value]
        },
        other != name ==> values_of(replace_first(entries, name, value), other) == values_of(
            entries,
            other,
        ),
        replace_first(entries, name, value).len() == entries.len() - values_of(
            entries,
            name,
        ).len() + if values_of(entries, name).len() == 0 {
            0int
        } else {
            1int
        },
    decreases entries.len(),
{
    if entries.len() > 0 {
        let init = entries.drop_last();
        lemma_replace_first(init, name, value, other);
        let r0 = replace_first(init, name, value);
        let e = entries.last();
        if e.0 == name {
            if values_of(init, name).len() == 0 {
                assert(r0.push((name, value)).drop_last() =~= r0);
                assert(values_of(r0.push((name, value)), name) =~= seq![value]);
            }
        } else {
            assert(r0.push(e).drop_last() =~= r0);
        }
    }
}

/// Where no entry has the name, `replace_first` changes nothing.
proof fn lemma_replace_first_unnamed(entries: Seq<Entry>, name: Seq<char>, value: Seq<char>)
    requires
        values_of(entries, name).len() == 0,
    ensures
        replace_first(entries, name, value) == entries,
    decreases entries.len(),
{
    if entries.len() > 0 {
        let init = entries.drop_last();
        if entries.last().0 == name {
            assert(values_of(entries, name).len() > 0);
        }
        lemma_replace_first_unnamed(init, name, value);
        assert(init.push(entries.last()) =~= entries);
    }
}

/// Setting keeps the names in lower case, where the name set is in lower
/// case.
proof fn lemma_set_header_lowercase(entries: Seq<Entry>, name: Seq<char>, value: Seq<char>)
    requires
        names_lowercase(entries),
        lower_all(name) == name,
    ensures
        names_lowercase(replace_first(entries, name, value)),
        names_lowercase(set_header(entries, name, value)),
    decreases entries.len(),
{
    if entries.len() > 0 {
        let init = entries.drop_last();
        assert(names_lowercase(init)) by {
            assert forall|i: int| 0 <= i < init.len() implies lower_all(#[trigger] init[i].0)
                == init[i].0 by {
                assert(init[i] == entries[i]);
            }
        }
        lemma_set_header_lowercase(init, name, value);
        let r0 = replace_first(init, name, value);
        let e = entries.last();
        assert(lower_all(e.0) == e.0) by {
            assert(e == entries[entries.len() - 1]);
        }
        assert forall|x: Entry| lower_all(x.0) == x.0 implies names_lowercase(
            #[trigger] r0.push(x),
        ) by {
            assert forall|i: int| 0 <= i < r0.push(x).len() implies lower_all(
                #[trigger] r0.push(x)[i].0,
            ) == r0.push(x)[i].0 by {
                if i < r0.len() {
                    assert(r0.push(x)[i] == r0[i]);
                }
            }
        }
        assert(names_lowercase(r0.push((name, value))));
        assert(names_lowercase(r0.push(e)));
    }
    assert forall|i: int| 0 <= i < entries.push((name, value)).len() implies lower_all(
        #[trigger] entries.push((name, value))[i].0,
    ) == entries.push((name, value))[i].0 by {
        if i < entries.len() {
            assert(entries.push((name, value))[i] == entries[i]);
        }
    }
}

/// The value that `lookup` finds is the first of the values of that name.
pub proof fn lemma_lookup_values(entries: Seq<Entry>, name: Seq<char>)
    ensures
        lookup(entries, name) == if values_of(entries, name).len() == 0 {
            None::<Seq<char>>
        } else {
            Some(values_of(entries, name)[0])
        },
    decreases entries.len(),
{
    if entries.len() == 0 {
    } else {
        let init = entries.drop_last();
        let e = entries.last();
        lemma_lookup_values(init, name);
        lemma_index_from(init, name, 0);
        match index_of(init, name) {
            Some(i) => {
                assert forall|j: int| 0 <= j < i implies #[trigger] entries[j].0 != name by {
                    assert(entries[j] == init[j]);
                }
                assert(entries[i] == init[i]);
                lemma_first_index(entries, name, 0, i);
            },
            None => {
                assert forall|j: int| 0 <= j < init.len() implies #[trigger] entries[j].0
                    != name by {
                    assert(entries[j] == init[j]);
                }
                if e.0 == name {
                    assert(entries[init.len() as int] == e);
                    lemma_first_index(entries, name, 0, init.len() as int);
                } else {
                    lemma_first_index(entries, name, 0, entries.len() as int);
                }
            },
        }
    }
}

/// After a name is set in a map (as `ParamMap::insert` does), reading it
/// gives the value set.
pub proof fn get_after_insert(entries: Seq<Entry>, name: Seq<char>, value: Seq<char>)
    ensures
        lookup(set_entry(entries, name, value), name) == Some(value),
{
    lemma_index_from(entries, name, 0);
    let e2 = set_entry(entries, name, value);
    match index_of(entries, name) {
        Some(i) => {
            assert forall|j: int| 0 <= j < i implies #[trigger] e2[j].0 != name by {
                assert(e2[j] == entries[j]);
            }
            lemma_first_index(e2, name, 0, i);
        },
        None => {
            assert forall|j: int| 0 <= j < entries.len() implies #[trigger] e2[j].0 != name by {
                assert(e2[j] == entries[j]);
            }
            lemma_first_index(e2, name, 0, entries.len() as int);
        },
    }
}

/// Setting one name in a map leaves every other name as it was.
pub proof fn insert_keeps_others(
    entries: Seq<Entry>,
    name: Seq<char>,
    value: Seq<char>,
    other: Seq<char>,
)
    requires
        other != name,
    ensures
        lookup(set_entry(entries, name, value), other) == lookup(entries, other),
        values_of(set_entry(entries, name, value), other) == values_of(entries, other),
{
    lemma_index_from(entries, name, 0);
    lemma_index_from(entries, other, 0);
    let e2 = set_entry(entries, name, value);
    match index_of(entries, other) {
        Some(k) => {
            assert forall|j: int| 0 <= j < k implies #[trigger] e2[j].0 != other by {
                if j < entries.len() {
                    assert(e2[j].0 == entries[j].0 || e2[j].0 == name);
                }
            }
            assert(e2[k] == entries[k]);
            lemma_first_index(e2, other, 0, k);
        },
        None => {
            assert forall|j: int| 0 <= j < e2.len() implies #[trigger] e2[j].0 != other by {
                if j < entries.len() {
                    assert(e2[j].0 == entries[j].0 || e2[j].0 == name);
                }
            }
            lemma_index_from(e2, other, 0);
            lemma_first_index(e2, other, 0, e2.len() as int);
        },
    }
    if index_of(entries, name) is None {
        assert(e2.drop_last() =~= entries);
    }
    lemma_values_of_unnamed(entries, e2, other);
}

/// Setting a name that is present in a map keeps the number of entries;
/// setting one that is absent adds one.
pub proof fn insert_count(entries: Seq<Entry>, name: Seq<char>, value: Seq<char>)
    ensures
        set_entry(entries, name, value).len() == entries.len() + if index_of(
            entries,
            name,
        ) is Some {
            0int
        } else {
            1int
        },
{
    lemma_index_from(entries, name, 0);
}

/// Appending a value adds it at the end of the values of that header.
pub proof fn get_all_after_append(entries: Seq<Entry>, name: Seq<char>, value: Seq<char>)
    ensures
        values_of(entries.push((name, value)), name) == values_of(entries, name).push(value),
{
    assert(entries.push((name, value)).drop_last() =~= entries);
}

/// After a header is removed, no entry of that name is left, and every other
/// header keeps its values.
pub proof fn remove_leaves_none(entries: Seq<Entry>, name: Seq<char>, other: Seq<char>)
    ensures
        index_of(without(entries, name), name) is None,
        other != name ==> values_of(without(entries, name), other) == values_of(entries, other),
    decreases entries.len(),
{
    lemma_without_names(entries, name);
    lemma_index_from(without(entries, name), name, 0);
    if other != name {
        lemma_without_values(entries, name, other);
    }
}

/// The first entry of that name from `from` on (or none) is what
/// `index_from` finds.
proof fn lemma_first_index(entries: Seq<Entry>, name: Seq<char>, from: int, i: int)
    requires
        0 <= from <= i <= entries.len(),
        i < entries.len() ==> entries[i].0 == name,
        forall|j: int| from <= j < i ==> #[trigger] entries[j].0 != name,
    ensures
        index_from(entries, name, from) == (if i < entries.len() {
            Some(i)
        } else {
            None::<int>
        }),
    decreases i - from,
{
    if from < i {
        lemma_first_index(entries, name, from + 1, i);
    }
}

/// Entries that differ only where neither is named `name` have the same
/// values of `name`.
proof fn lemma_values_of_unnamed(a: Seq<Entry>, b: Seq<Entry>, name: Seq<char>)
    requires
        a.len() <= b.len() <= a.len() + 1,
        forall|j: int| 0 <= j < a.len() && a[j] != b[j] ==> a[j].0 != name && b[j].0 != name,
        b.len() == a.len() + 1 ==> b.last().0 != name && b.drop_last() == a,
    ensures
        values_of(b, name) == values_of(a, name),
    decreases a.len(),
{
    if b.len() == a.len() + 1 {
    } else if a.len() > 0 {
        lemma_values_of_unnamed(a.drop_last(), b.drop_last(), name);
        assert(a.last() == a[a.len() - 1] && b.last() == b[b.len() - 1]);
    } else {
        assert(b =~= a);
    }
}

/// No entry left by `without` has the name removed.
proof fn lemma_without_names(entries: Seq<Entry>, name: Seq<char>)
    ensures
        forall|j: int|
            0 <= j < without(entries, name).len() ==> #[trigger] without(entries, name)[j].0
                != name,
    decreases entries.len(),
{
    if entries.len() > 0 {
        lemma_without_names(entries.drop_last(), name);
        let w = without(entries.drop_last(), name);
        if entries.last().0 != name {
            assert forall|j: int| 0 <= j < w.push(entries.last()).len() implies #[trigger] w.push(
                entries.last(),
            )[j].0 != name by {
                if j < w.len() {
                    assert(w.push(entries.last())[j] == w[j]);
                }
            }
        }
    }
}

/// Removing one name keeps the values of every other.
proof fn lemma_without_values(entries: Seq<Entry>, name: Seq<char>, other: Seq<char>)
    requires
        other != name,
    ensures
        values_of(without(entries, name), other) == values_of(entries, other),
    decreases entries.len(),
{
    if entries.len() > 0 {
        lemma_without_values(entries.drop_last(), name, other);
        let w = without(entries.drop_last(), name);
        if entries.last().0 != name {
            assert(w.push(entries.last()).drop_last() =~= w);
        }
    }
}

/// Removing entries keeps the names in lower case.
proof fn lemma_without_lowercase(entries: Seq<Entry>, name: Seq<char>)
    ensures
        names_lowercase(entries) ==> names_lowercase(without(entries, name)),
    decreases entries.len(),
{
    if entries.len() > 0 {
        lemma_without_lowercase(entries.drop_last(), name);
        if names_lowercase(entries) {
            assert(names_lowercase(entries.drop_last())) by {
                assert forall|i: int| 0 <= i < entries.drop_last().len() implies lower_all(
                    #[trigger] entries.drop_last()[i].0,
                ) == entries.drop_last()[i].0 by {
                    assert(entries.drop_last()[i] == entries[i]);
                }
            }
            let w = without(entries.drop_last(), name);
            if entries.last().0 != name {
                assert forall|i: int| 0 <= i < w.push(entries.last()).len() implies lower_all(
                    #[trigger] w.push(entries.last())[i].0,
                ) == w.push(entries.last())[i].0 by {
                    if i == w.len() {
                        assert(entries.last() == entries[entries.len() - 1]);
                    }
                }
            }
        }
    }
}

} // verus!
