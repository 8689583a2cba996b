//! RTSP header fields: a map from names to values that keeps the order in
//! which names were first inserted.

use vstd::prelude::*;

verus! {

/// Header fields as a sequence of (name, value) pairs.
pub type HeaderSeq = Seq<(Seq<char>, Seq<char>)>;

/// No name occurs twice.
pub open spec fn keys_unique(hs: HeaderSeq) -> bool {
    forall|i: int, j: int| 0 <= i < j < hs.len() ==> hs[i].0 != hs[j].0
}

/// First index `i >= k` whose name is `key`.
pub open spec fn key_index_from(hs: HeaderSeq, key: Seq<char>, k: int) -> Option<int>
    decreases hs.len() - k,
{
    if k < 0 || k >= hs.len() {
        None
    } else if hs[k].0 == key {
        Some(k)
    } else {
        key_index_from(hs, key, k + 1)
    }
}

/// Index of the field named `key`.
pub open spec fn key_index(hs: HeaderSeq, key: Seq<char>) -> Option<int> {
    key_index_from(hs, key, 0)
}

/// The value of the field named `key`.
pub open spec fn lookup(hs: HeaderSeq, key: Seq<char>) -> Option<Seq<char>> {
    match key_index(hs, key) {
        Some(i) => Some(hs[i].1),
        None => None,
    }
}

/// `hs` with field `key` set to `value`: replaced where it is, or added last.
pub open spec fn insert_header(hs: HeaderSeq, key: Seq<char>, value: Seq<char>) -> HeaderSeq {
    match key_index(hs, key) {
        Some(i) => hs.update(i, (key, value)),
        None => hs.push((key, value)),
    }
}

/// `hs` with field `key` added last, unless a field of that name is present.
pub open spec fn insert_if_absent(hs: HeaderSeq, key: Seq<char>, value: Seq<char>) -> HeaderSeq {
    match key_index(hs, key) {
        Some(_) => hs,
        None => hs.push((key, value)),
    }
}

/// `key_index_from` is the first index from `k` holding `key`.
pub proof fn lemma_key_index_from(hs: HeaderSeq, key: Seq<char>, k: int)
    requires
        0 <= k <= hs.len(),
    ensures
        match key_index_from(hs, key, k) {
            Some(i) => k <= i < hs.len() && hs[i].0 == key && forall|m: int|
                k <= m < i ==> hs[m].0 != key,
            None => forall|m: int| k <= m < hs.len() ==> hs[m].0 != key,
        },
    decreases hs.len() - k,
{
    if k < hs.len() && hs[k].0 != key {
        lemma_key_index_from(hs, key, k + 1);
    }
}

/// With unique names, the index of `key` is the one place it occurs.
pub proof fn lemma_key_index(hs: HeaderSeq, key: Seq<char>)
    requires
        keys_unique(hs),
    ensures
        match key_index(hs, key) {
            Some(i) => 0 <= i < hs.len() && hs[i].0 == key,
            None => forall|m: int| 0 <= m < hs.len() ==> hs[m].0 != key,
        },
        forall|i: int| 0 <= i < hs.len() && hs[i].0 == key ==> key_index(hs, key) == Some(i),
{
    lemma_key_index_from(hs, key, 0);
}

/// Setting a field keeps names unique.
pub proof fn lemma_insert_unique(hs: HeaderSeq, key: Seq<char>, value: Seq<char>)
    requires
        keys_unique(hs),
    ensures
        keys_unique(insert_header(hs, key, value)),
        keys_unique(insert_if_absent(hs, key, value)),
        lookup(insert_header(hs, key, value), key) == Some(value),
{
    lemma_key_index(hs, key);
    let r = insert_header(hs, key, value);
    let at = match key_index(hs, key) {
        Some(i) => i,
        None => hs.len() as int,
    };
    assert(keys_unique(r)) by {
        assert forall|i: int, j: int| 0 <= i < j < r.len() implies r[i].0 != r[j].0 by {
            if i != at && j != at {
                assert(r[i] == hs[i] && r[j] == hs[j]);
            }
        }
    }
    assert(r[at].0 == key);
    lemma_key_index(r, key);
}

/// Reading a field after setting it gives the value set; other fields read
/// as before.
pub proof fn law_insert_then_lookup(hs: HeaderSeq, key: Seq<char>, value: Seq<char>, other: Seq<char>)
    requires
        keys_unique(hs),
    ensures
        lookup(insert_header(hs, key, value), key) == Some(value),
        other != key ==> lookup(insert_header(hs, key, value), other) == lookup(hs, other),
        keys_unique(insert_header(hs, key, value)),
{
    lemma_insert_unique(hs, key, value);
    let r = insert_header(hs, key, value);
    lemma_key_index(hs, other);
    lemma_key_index(r, other);
    lemma_key_index(hs, key);
    if other != key {
        match key_index(hs, other) {
            Some(i) => {
                assert(r[i] == hs[i]);
            },
            None => {
                assert forall|m: int| 0 <= m < r.len() implies r[m].0 != other by {
                    if m < hs.len() && r[m] == hs[m] {
                    }
                }
            },
        }
    }
}

/// Header fields: each name occurs once, in the order it was first set.
#[derive(Debug)]
pub struct HeaderMap {
    entries: Vec<(String, String)>,
}

impl View for HeaderMap {
    type V = HeaderSeq;

    closed spec fn view(&self) -> HeaderSeq {
        self.entries@.map_values(|e: (String, String)| (e.0@, e.1@))
    }
}

impl HeaderMap {
    #[verifier::type_invariant]
    pub(crate) closed spec fn names_unique(&self) -> bool {
        keys_unique(self@)
    }

    /// A map with no fields.
    pub fn new() -> (m: Self)
        ensures
            m@ == Seq::<(Seq<char>, Seq<char>)>::empty(),
    {
        let m = HeaderMap { entries: Vec::new() };
        assert(m@ =~= Seq::<(Seq<char>, Seq<char>)>::empty());
        m
    }

    /// Number of fields; no name occurs twice among them.
    pub fn len(&self) -> (n: usize)
        ensures
            n == self@.len(),
            keys_unique(self@),
    {
        proof {
            use_type_invariant(self);
        }
        self.entries.len()
    }

    /// Name and value of the `i`-th field.
    pub fn entry(&self, i: usize) -> (e: (&String, &String))
        requires
            i < self@.len(),
        ensures
            e.0@ == self@[i as int].0,
            e.1@ == self@[i as int].1,
    {
        (&self.entries[i].0, &self.entries[i].1)
    }

    /// Index of the field whose name is `key`.
    fn position(&self, key: &String) -> (r: Option<usize>)
        ensures
            self@.len() == self.entries@.len(),
            match r {
                Some(i) => i < self@.len() && key_index(self@, key@) == Some(i as int),
                None => key_index(self@, key@) is None,
            },
    {
        proof {
            use_type_invariant(self);
            lemma_key_index(self@, key@);
        }
        let mut i: usize = 0;
        while i < self.entries.len()
            invariant
                0 <= i <= self@.len(),
                self@.len() == self.entries@.len(),
                keys_unique(self@),
                forall|m: int| 0 <= m < i ==> self@[m].0 != key@,
                forall|m: int|
                    0 <= m < self@.len() && self@[m].0 == key@ ==> key_index(self@, key@) == Some(
                        m,
                    ),
            decreases self@.len() - i,
        {
            if self.entries[i].0 == *key {
                assert(self@[i as int].0 == key@);
                return Some(i);
            }
            i = i + 1;
        }
        proof {
            lemma_key_index_from(self@, key@, 0);
        }
        None
    }

    /// The value of the field named `key`.
    pub fn get(&self, key: &str) -> (r: Option<&String>)
        ensures
            match r {
                Some(v) => lookup(self@, key@) == Some(v@),
                None => lookup(self@, key@) is None,
            },
    {
        let k = key.to_owned();
        match self.position(&k) {
            Some(i) => Some(&self.entries[i].1),
            None => None,
        }
    }

    /// Sets field `key` to `value`, in place if the name is present.
    pub fn insert(&mut self, key: String, value: String)
        ensures
            final(self)@ == insert_header(old(self)@, key@, value@),
    {
        proof {
            use_type_invariant(&*self);
            lemma_insert_unique(self@, key@, value@);
        }
        let ghost target = insert_header(self@, key@, value@);
        match self.position(&key) {
            Some(i) => {
                let ghost kv = key@;
                let ghost vv = value@;
                let mut entries: Vec<(String, String)> = Vec::new();
                std::mem::swap(&mut entries, &mut self.entries);
                assert(self@ =~= Seq::<(Seq<char>, Seq<char>)>::empty());
                entries.set(i, (key, value));
                assert(entries@.map_values(|e: (String, String)| (e.0@, e.1@)) =~= target);
                self.entries = entries;
            },
            None => {
                let mut entries: Vec<(String, String)> = Vec::new();
                std::mem::swap(&mut entries, &mut self.entries);
                assert(self@ =~= Seq::<(Seq<char>, Seq<char>)>::empty());
                entries.push((key, value));
                assert(entries@.map_values(|e: (String, String)| (e.0@, e.1@)) =~= target);
                self.entries = entries;
            },
        }
    }

    /// Adds field `key` last, unless a field of that name is present.
    pub fn insert_if_absent(&mut self, key: String, value: String)
        ensures
            final(self)@ == insert_if_absent(old(self)@, key@, value@),
    {
        match self.position(&key) {
            Some(_) => {},
            None => {
                self.insert(key, value);
            },
        }
    }

    /// A copy of the map.
    pub fn duplicate(&self) -> (m: Self)
        ensures
            m@ == self@,
    {
        proof {
            use_type_invariant(self);
        }
        let mut entries: Vec<(String, String)> = Vec::new();
        let mut i: usize = 0;
        while i < self.entries.len()
            invariant
                0 <= i <= self.entries@.len(),
                entries@.len() == i,
                forall|m: int|
                    0 <= m < i ==> entries@[m].0@ == self.entries@[m].0@ && entries@[m].1@
                        == self.entries@[m].1@,
            decreases self.entries@.len() - i,
        {
            let k = self.entries[i].0.clone();
            let v = self.entries[i].1.clone();
            entries.push((k, v));
            i = i + 1;
        }
        let ghost ev = entries@.map_values(|e: (String, String)| (e.0@, e.1@));
        assert(ev =~= self@);
        HeaderMap { entries }
    }
}

} // verus!
