//! An ordered header map: each name at most once, a later value for a name
//! replaces the earlier one in place.

use vstd::prelude::*;
use crate::text::{chars_of, chars_eq};

verus! {

/// The entries of a header map, as name and value character sequences.
pub type HeaderSeq = Seq<(Seq<char>, Seq<char>)>;

/// No name occurs twice.
pub open spec fn unique_names(s: HeaderSeq) -> bool {
    forall|i: int, j: int| 0 <= i < s.len() && 0 <= j < s.len() && i != j ==> s[i].0 != s[j].0
}

/// Whether some entry has name `k`.
pub open spec fn has_name(s: HeaderSeq, k: Seq<char>) -> bool {
    exists|i: int| 0 <= i < s.len() && s[i].0 == k
}

/// `s` with `k` set to `v`: the entry of that name is replaced where it
/// stands, or a new entry is added at the end.
pub open spec fn with_entry(s: HeaderSeq, k: Seq<char>, v: Seq<char>) -> HeaderSeq {
    if has_name(s, k) {
        let i = choose|i: int| 0 <= i < s.len() && s[i].0 == k;
        s.update(i, (k, v))
    } else {
        s.push((k, v))
    }
}

/// The value stored under `k`, if any.
pub open spec fn value_of(s: HeaderSeq, k: Seq<char>) -> Option<Seq<char>> {
    if has_name(s, k) {
        let i = choose|i: int| 0 <= i < s.len() && s[i].0 == k;
        Some(s[i].1)
    } else {
        None
    }
}

/// Setting a name keeps the names unique.
pub proof fn lemma_with_entry_unique(s: HeaderSeq, k: Seq<char>, v: Seq<char>)
    requires
        unique_names(s),
    ensures
        unique_names(with_entry(s, k, v)),
        value_of(with_entry(s, k, v), k) == Some(v),
{
    let t = with_entry(s, k, v);
    if has_name(s, k) {
        let i = choose|i: int| 0 <= i < s.len() && s[i].0 == k;
        assert(t[i].0 == k);
    } else {
        assert(t[s.len() as int].0 == k);
    }
    assert(has_name(t, k));
    let j = choose|j: int| 0 <= j < t.len() && t[j].0 == k;
    if has_name(s, k) {
        let i = choose|i: int| 0 <= i < s.len() && s[i].0 == k;
        assert(j == i);
    } else {
        assert(j == s.len());
    }
}

/// A header map with unique names, in order of first insertion.
#[derive(Debug, PartialEq, Eq)]
pub struct Headers {
    entries: Vec<(String, String)>,
}

impl View for Headers {
    type V = HeaderSeq;

    closed spec fn view(&self) -> HeaderSeq {
        self.entries@.map_values(|e: (String, String)| (e.0@, e.1@))
    }
}

impl Headers {
    /// No name occurs twice.
    pub closed spec fn wf(&self) -> bool {
        unique_names(self@)
    }

    /// An empty map.
    pub fn new() -> (r: Headers)
        ensures
            r.wf(),
            r@ == Seq::<(Seq<char>, Seq<char>)>::empty(),
    {
        let r = Headers { entries: Vec::new() };
        assert(r@ =~= Seq::<(Seq<char>, Seq<char>)>::empty());
        r
    }

    /// Sets `key` to `value`, replacing an earlier value of the same name.
    pub fn insert(&mut self, key: String, value: String)
        requires
            old(self).wf(),
        ensures
            final(self).wf(),
            final(self)@ == with_entry(old(self)@, key@, value@),
    {
        let ghost s = self@;
        let kc = chars_of(key.as_str());
        let mut i: usize = 0;
        while i < self.entries.len()
            invariant
                self@ == s,
                s == old(self)@,
                unique_names(s),
                kc@ == key@,
                i <= s.len(),
                forall|j: int| 0 <= j < i ==> s[j].0 != key@,
            decreases s.len() - i,
        {
            let nc = chars_of(self.entries[i].0.as_str());
            assert(s[i as int].0 == self.entries@[i as int].0@);
            if chars_eq(&nc, &kc) {
                assert(s[i as int].0 == key@);
                assert(has_name(s, key@));
                let ghost c = choose|c: int| 0 <= c < s.len() && s[c].0 == key@;
                assert(c == i);
                self.entries.set(i, (key, value));
                proof { lemma_with_entry_unique(s, kc@, value@); }
                assert(self@ =~= with_entry(s, key@, value@));
                return;
            }
            i = i + 1;
        }
        assert(!has_name(s, key@));
        self.entries.push((key, value));
        proof { lemma_with_entry_unique(s, kc@, value@); }
        assert(self@ =~= with_entry(s, key@, value@));
    }

    /// The value stored under `key`.
    pub fn get(&self, key: &str) -> (r: Option<&String>)
        requires
            self.wf(),
        ensures
            r is Some <==> value_of(self@, key@) is Some,
            r is Some ==> r->0@ == value_of(self@, key@)->0,
    {
        let ghost s = self@;
        let kc = chars_of(key);
        let mut i: usize = 0;
        while i < self.entries.len()
            invariant
                self@ == s,
                unique_names(s),
                kc@ == key@,
                i <= s.len(),
                forall|j: int| 0 <= j < i ==> s[j].0 != key@,
            decreases s.len() - i,
        {
            let nc = chars_of(self.entries[i].0.as_str());
            assert(s[i as int].0 == self.entries@[i as int].0@);
            if chars_eq(&nc, &kc) {
                assert(has_name(s, key@));
                let ghost c = choose|c: int| 0 <= c < s.len() && s[c].0 == key@;
                assert(c == i);
                return Some(&self.entries[i].1);
            }
            i = i + 1;
        }
        None
    }

    /// The number of names.
    pub fn len(&self) -> (r: usize)
        ensures
            r == self@.len(),
    {
        self.entries.len()
    }

    /// The entries, in order.
    pub fn entries(&self) -> (r: &Vec<(String, String)>)
        ensures
            r@.map_values(|e: (String, String)| (e.0@, e.1@)) == self@,
    {
        &self.entries
    }
}

} // verus!
