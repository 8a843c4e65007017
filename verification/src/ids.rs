//! The identifiers by which other services know a book.
use vstd::prelude::*;

use crate::text::same_text;

verus! {

/// The entry of `s` for the key `k`.
pub open spec fn key_index(s: Seq<(String, String)>, k: Seq<char>) -> int {
    choose|i: int| 0 <= i < s.len() && (#[trigger] s[i]).0@ == k
}

pub open spec fn has_key(s: Seq<(String, String)>, k: Seq<char>) -> bool {
    exists|i: int| 0 <= i < s.len() && (#[trigger] s[i]).0@ == k
}

pub open spec fn keys_differ(s: Seq<(String, String)>) -> bool {
    forall|i: int, j: int|
        0 <= i < j < s.len() ==> (#[trigger] s[i]).0@ != (#[trigger] s[j]).0@
}

pub open spec fn entry_map(s: Seq<(String, String)>) -> Map<Seq<char>, Seq<char>> {
    Map::new(|k: Seq<char>| has_key(s, k), |k: Seq<char>| s[key_index(s, k)].1@)
}

/// A map from the name of a service to the identifier there.
#[derive(Debug)]
pub struct Ids {
    entries: Vec<(String, String)>,
}

impl View for Ids {
    type V = Map<Seq<char>, Seq<char>>;

    closed spec fn view(&self) -> Map<Seq<char>, Seq<char>> {
        entry_map(self.entries@)
    }
}

proof fn lemma_entry(s: Seq<(String, String)>, i: int)
    requires
        keys_differ(s),
        0 <= i < s.len(),
    ensures
        entry_map(s).contains_key(s[i].0@),
        entry_map(s)[s[i].0@] == s[i].1@,
{
    let k = s[i].0@;
    assert(has_key(s, k));
    let j = key_index(s, k);
    assert(0 <= j < s.len() && s[j].0@ == k);
    if i < j {
        assert(s[i].0@ != s[j].0@);
    }
    if j < i {
        assert(s[j].0@ != s[i].0@);
    }
}

fn clone_pair(p: &(String, String)) -> (r: (String, String))
    ensures
        r == *p,
{
    (p.0.clone(), p.1.clone())
}

impl Ids {
    #[verifier::type_invariant]
    spec fn inv(self) -> bool {
        keys_differ(self.entries@)
    }

    /// No identifiers.
    pub fn new() -> (r: Ids)
        ensures
            r@ == Map::<Seq<char>, Seq<char>>::empty(),
    {
        let r = Ids { entries: Vec::new() };
        assert(r@ =~= Map::<Seq<char>, Seq<char>>::empty());
        r
    }

    fn index(&self, key: &str) -> (r: Option<usize>)
        ensures
            match r {
                Some(i) => i < self.entries@.len() && self.entries@[i as int].0@ == key@,
                None => !has_key(self.entries@, key@),
            },
    {
        let mut i: usize = 0;
        while i < self.entries.len()
            invariant
                i <= self.entries@.len(),
                forall|j: int| 0 <= j < i ==> (#[trigger] self.entries@[j]).0@ != key@,
            decreases self.entries@.len() - i,
        {
            if same_text(self.entries[i].0.as_str(), key) {
                return Some(i);
            }
            i = i + 1;
        }
        None
    }

    /// The identifier at a service.
    pub fn get(&self, key: &str) -> (r: Option<&String>)
        ensures
            r is Some == self@.contains_key(key@),
            r matches Some(v) ==> self@[key@] == v@,
    {
        proof {
            use_type_invariant(self);
        }
        match self.index(key) {
            Some(i) => {
                proof {
                    lemma_entry(self.entries@, i as int);
                }
                Some(&self.entries[i].1)
            },
            None => None,
        }
    }

    /// Whether a service has an identifier.
    pub fn contains_key(&self, key: &str) -> (r: bool)
        ensures
            r == self@.contains_key(key@),
    {
        self.get(key).is_some()
    }

    pub fn is_empty(&self) -> (r: bool)
        ensures
            r == (self@ == Map::<Seq<char>, Seq<char>>::empty()),
    {
        proof {
            use_type_invariant(self);
            if self.entries@.len() > 0 {
                lemma_entry(self.entries@, 0);
                assert(self@.contains_key(self.entries@[0].0@));
            } else {
                assert(self@ =~= Map::<Seq<char>, Seq<char>>::empty());
            }
        }
        self.entries.len() == 0
    }

    /// Sets the identifier at a service.
    pub fn insert(&mut self, key: String, value: String)
        ensures
            final(self)@ == old(self)@.insert(key@, value@),
    {
        proof {
            use_type_invariant(&*self);
        }
        let ghost before = self.entries@;
        let at = self.index(key.as_str());
        let mut v: Vec<(String, String)> = Vec::new();
        std::mem::swap(&mut v, &mut self.entries);
        let ghost k = key@;
        let ghost val = value@;
        match at {
            Some(i) => {
                v.set(i, (key, value));
                proof {
                    assert(v@ == before.update(i as int, (key, value)));
                    assert forall|a: int, b: int| 0 <= a < b < v@.len() implies (
                    #[trigger] v@[a]).0@ != (#[trigger] v@[b]).0@ by {
                        assert(before[a].0@ != before[b].0@);
                    }
                    lemma_entry(v@, i as int);
                }
            },
            None => {
                v.push((key, value));
                proof {
                    assert forall|a: int, b: int| 0 <= a < b < v@.len() implies (
                    #[trigger] v@[a]).0@ != (#[trigger] v@[b]).0@ by {
                        assert(before[a].0@ != k);
                    }
                    lemma_entry(v@, before.len() as int);
                }
            },
        }
        proof {
            let want = entry_map(before).insert(k, val);
            assert forall|x: Seq<char>| entry_map(v@).contains_key(x) == want.contains_key(x) by {
                if entry_map(v@).contains_key(x) {
                    let j = key_index(v@, x);
                    assert(v@[j].0@ == x);
                    if x != k {
                        assert(before[j].0@ == x);
                    }
                }
                if entry_map(before).contains_key(x) {
                    let j = key_index(before, x);
                    assert(before[j].0@ == x);
                    assert(v@[j].0@ == x);
                }
            }
            assert forall|x: Seq<char>| want.contains_key(x) implies entry_map(v@)[x]
                == want[x] by {
                if x != k {
                    let j = key_index(before, x);
                    assert(before[j].0@ == x);
                    assert(v@[j] == before[j]);
                    lemma_entry(before, j);
                    lemma_entry(v@, j);
                }
            }
            assert(entry_map(v@) =~= want);
        }
        self.entries = v;
    }

    /// Adds the identifiers of `other`, which replace those of the same
    /// services here.
    pub fn append(&mut self, other: &Ids)
        ensures
            final(self)@ == old(self)@.union_prefer_right(other@),
    {
        proof {
            use_type_invariant(other);
        }
        let ghost start = self@;
        let ghost e = other.entries@;
        let mut i: usize = 0;
        assert(entry_map(e.take(0)) =~= Map::<Seq<char>, Seq<char>>::empty());
        assert(start.union_prefer_right(entry_map(e.take(0))) =~= start);
        while i < other.entries.len()
            invariant
                i <= e.len(),
                e == other.entries@,
                keys_differ(e),
                self@ == start.union_prefer_right(entry_map(e.take(i as int))),
            decreases e.len() - i,
        {
            let (k, v) = clone_pair(&other.entries[i]);
            let ghost now = e.take(i as int);
            let ghost next = e.take(i + 1);
            proof {
                lemma_entry(next, i as int);
                assert forall|x: Seq<char>| entry_map(next).contains_key(x) == (x == e[i as int].0@
                    || entry_map(now).contains_key(x)) by {
                    if entry_map(next).contains_key(x) {
                        let j = key_index(next, x);
                        assert(next[j].0@ == x);
                        if j < i {
                            assert(now[j].0@ == x);
                        }
                    }
                    if entry_map(now).contains_key(x) {
                        let j = key_index(now, x);
                        assert(now[j].0@ == x);
                        assert(next[j].0@ == x);
                    }
                }
                assert forall|x: Seq<char>| entry_map(now).contains_key(x) && x
                    != e[i as int].0@ implies entry_map(next)[x] == entry_map(now)[x] by {
                    let j = key_index(now, x);
                    assert(now[j].0@ == x);
                    lemma_entry(now, j);
                    lemma_entry(next, j);
                }
                assert(start.union_prefer_right(entry_map(next)) =~= start.union_prefer_right(
                    entry_map(now),
                ).insert(e[i as int].0@, e[i as int].1@));
            }
            self.insert(k, v);
            i = i + 1;
        }
        assert(e.take(i as int) == e);
    }

    /// Whether some service's name or identifier is the given text.
    pub fn mentions(&self, value: &str) -> (r: bool)
        ensures
            r == (exists|k: Seq<char>| #[trigger] self@.contains_key(k) && (k == value@ || self@[k]
                == value@)),
    {
        proof {
            use_type_invariant(self);
        }
        let mut i: usize = 0;
        while i < self.entries.len()
            invariant
                i <= self.entries@.len(),
                keys_differ(self.entries@),
                forall|j: int|
                    0 <= j < i ==> (#[trigger] self.entries@[j]).0@ != value@
                        && self.entries@[j].1@ != value@,
            decreases self.entries@.len() - i,
        {
            if same_text(self.entries[i].0.as_str(), value) || same_text(
                self.entries[i].1.as_str(),
                value,
            ) {
                proof {
                    lemma_entry(self.entries@, i as int);
                    assert(self@.contains_key(self.entries@[i as int].0@));
                }
                return true;
            }
            i = i + 1;
        }
        proof {
            assert forall|k: Seq<char>| #[trigger] self@.contains_key(k) implies k != value@
                && self@[k] != value@ by {
                let j = key_index(self.entries@, k);
                assert(self.entries@[j].0@ == k);
                lemma_entry(self.entries@, j);
            }
        }
        false
    }

    /// Whether every identifier here stands in `other` too.
    fn is_within(&self, other: &Ids) -> (r: bool)
        ensures
            r == self@.submap_of(other@),
    {
        proof {
            use_type_invariant(self);
            use_type_invariant(other);
        }
        let mut i: usize = 0;
        while i < self.entries.len()
            invariant
                i <= self.entries@.len(),
                keys_differ(self.entries@),
                keys_differ(other.entries@),
                forall|j: int|
                    0 <= j < i ==> other@.contains_key((#[trigger] self.entries@[j]).0@)
                        && other@[self.entries@[j].0@] == self.entries@[j].1@,
            decreases self.entries@.len() - i,
        {
            proof {
                lemma_entry(self.entries@, i as int);
            }
            let (k, v) = (&self.entries[i].0, &self.entries[i].1);
            match other.get(k.as_str()) {
                Some(w) => {
                    if !same_text(v.as_str(), w.as_str()) {
                        assert(self@.contains_key(k@) && self@[k@] != other@[k@]);
                        return false;
                    }
                },
                None => {
                    assert(self@.contains_key(k@) && !other@.contains_key(k@));
                    return false;
                },
            }
            i = i + 1;
        }
        proof {
            assert forall|k: Seq<char>| #[trigger]
                self@.contains_key(k) implies other@.contains_key(k) && self@[k] == other@[k] by {
                let j = key_index(self.entries@, k);
                assert(self.entries@[j].0@ == k);
                lemma_entry(self.entries@, j);
            }
            assert(self@.submap_of(other@));
        }
        true
    }

    /// Whether the two hold the same identifiers.
    pub fn is_same(&self, other: &Ids) -> (r: bool)
        ensures
            r == (self@ == other@),
    {
        let r = self.is_within(other) && other.is_within(self);
        proof {
            if r {
                assert(self@ =~= other@);
            }
        }
        r
    }
}

impl Clone for Ids {
    fn clone(&self) -> (r: Self)
        ensures
            r@ == self@,
    {
        proof {
            use_type_invariant(self);
        }
        let mut v: Vec<(String, String)> = Vec::new();
        let mut i: usize = 0;
        while i < self.entries.len()
            invariant
                i <= self.entries@.len(),
                v@ == self.entries@.take(i as int),
            decreases self.entries@.len() - i,
        {
            v.push(clone_pair(&self.entries[i]));
            assert(self.entries@.take(i + 1) == self.entries@.take(i as int).push(
                self.entries@[i as int],
            ));
            i = i + 1;
        }
        assert(v@ == self.entries@);
        Ids { entries: v }
    }
}

impl PartialEq for Ids {
    fn eq(&self, other: &Self) -> (r: bool) {
        self.is_same(other)
    }
}

impl vstd::std_specs::cmp::PartialEqSpecImpl for Ids {
    open spec fn obeys_eq_spec() -> bool {
        true
    }

    open spec fn eq_spec(&self, other: &Self) -> bool {
        self@ == other@
    }
}

} // verus!
