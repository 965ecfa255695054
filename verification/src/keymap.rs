//! A map from text to values, for the handful of keys that a run touches.
use crate::text::same_text;
use vstd::prelude::*;

verus! {

/// A map with text keys. Of two entries with one key the first counts.
#[derive(Debug, Clone)]
pub struct KeyMap<V> {
    pub entries: Vec<(String, V)>,
}

/// The place of a key from place `from` on, or the number of entries.
pub open spec fn find_key<V>(s: Seq<(String, V)>, key: Seq<char>, from: nat) -> nat
    decreases s.len() - from,
{
    if from >= s.len() {
        s.len()
    } else if s[from as int].0@ == key {
        from
    } else {
        find_key(s, key, from + 1)
    }
}

impl<V> View for KeyMap<V> {
    type V = Map<Seq<char>, V>;

    open spec fn view(&self) -> Map<Seq<char>, V> {
        Map::new(
            |k: Seq<char>| find_key(self.entries@, k, 0) < self.entries@.len(),
            |k: Seq<char>| self.entries@[find_key(self.entries@, k, 0) as int].1,
        )
    }
}

/// The place found holds the key, and no place before it does.
pub proof fn lemma_find_key<V>(s: Seq<(String, V)>, key: Seq<char>, from: nat)
    requires
        from <= s.len(),
    ensures
        from <= find_key(s, key, from) <= s.len(),
        find_key(s, key, from) < s.len() ==> s[find_key(s, key, from) as int].0@ == key,
        forall|i: int| from <= i < find_key(s, key, from) ==> s[i].0@ != key,
    decreases s.len() - from,
{
    if from < s.len() && s[from as int].0@ != key {
        lemma_find_key(s, key, from + 1);
    }
}

proof fn lemma_find_key_is<V>(s: Seq<(String, V)>, key: Seq<char>, at: nat)
    requires
        at <= s.len(),
        at < s.len() ==> s[at as int].0@ == key,
        forall|i: int| 0 <= i < at ==> s[i].0@ != key,
    ensures
        find_key(s, key, 0) == at,
{
    lemma_find_key(s, key, 0);
}

impl<V: Copy> KeyMap<V> {
    pub fn new() -> (r: Self)
        ensures
            r@ == Map::<Seq<char>, V>::empty(),
    {
        let r = KeyMap { entries: Vec::new() };
        assert(r@ =~= Map::<Seq<char>, V>::empty());
        r
    }

    /// The place of a key, or the number of entries.
    pub(crate) fn place(&self, key: &str) -> (r: usize)
        ensures
            r == find_key(self.entries@, key@, 0),
            r <= self.entries@.len(),
            r < self.entries@.len() ==> self.entries@[r as int].0@ == key@,
    {
        let mut i: usize = 0;
        while i < self.entries.len()
            invariant
                i <= self.entries.len(),
                forall|j: int| 0 <= j < i ==> self.entries@[j].0@ != key@,
            decreases self.entries.len() - i,
        {
            if same_text(self.entries[i].0.as_str(), key) {
                proof {
                    lemma_find_key_is(self.entries@, key@, i as nat);
                }
                return i;
            }
            i = i + 1;
        }
        proof {
            lemma_find_key_is(self.entries@, key@, i as nat);
        }
        i
    }

    pub fn get(&self, key: &str) -> (r: Option<V>)
        ensures
            r == if self@.dom().contains(key@) {
                Some(self@[key@])
            } else {
                None
            },
    {
        let i: usize = self.place(key);
        if i < self.entries.len() {
            Some(self.entries[i].1)
        } else {
            None
        }
    }

    pub fn contains(&self, key: &str) -> (r: bool)
        ensures
            r == self@.dom().contains(key@),
    {
        self.place(key) < self.entries.len()
    }

    pub fn insert(&mut self, key: &str, value: V)
        ensures
            final(self)@ == old(self)@.insert(key@, value),
    {
        let ghost s = self.entries@;
        let ghost before = self@;
        let i: usize = self.place(key);
        let entry: (String, V) = (key.to_owned(), value);
        if i < self.entries.len() {
            self.entries.set(i, entry);
            proof {
                let t = self.entries@;
                assert forall|k: Seq<char>| find_key(t, k, 0) == find_key(s, k, 0) by {
                    lemma_find_key(s, k, 0);
                    lemma_find_key_is(t, k, find_key(s, k, 0));
                }
                assert forall|k: Seq<char>|
                    k != key@ && find_key(s, k, 0) < s.len() implies find_key(s, k, 0) != i by {
                    lemma_find_key(s, k, 0);
                }
            }
        } else {
            self.entries.push(entry);
            proof {
                let t = self.entries@;
                assert forall|k: Seq<char>|
                    find_key(t, k, 0) == if k == key@ {
                        s.len()
                    } else if find_key(s, k, 0) < s.len() {
                        find_key(s, k, 0)
                    } else {
                        t.len()
                    } by {
                    lemma_find_key(s, k, 0);
                    lemma_find_key_is(
                        t,
                        k,
                        if k == key@ {
                            s.len()
                        } else if find_key(s, k, 0) < s.len() {
                            find_key(s, k, 0)
                        } else {
                            t.len()
                        },
                    );
                }
            }
        }
        assert(self@ =~= before.insert(key@, value));
    }

    pub fn remove(&mut self, key: &str)
        ensures
            final(self)@ == old(self)@.remove(key@),
    {
        let ghost before = self@;
        let mut i: usize = self.place(key);
        assert(before.remove(key@) =~= self@.remove(key@));
        while i < self.entries.len()
            invariant
                i == find_key(self.entries@, key@, 0),
                i <= self.entries@.len(),
                self@.remove(key@) == before.remove(key@),
            decreases self.entries.len(),
        {
            let ghost s = self.entries@;
            let ghost held = self@;
            proof {
                lemma_find_key(s, key@, 0);
            }
            let _gone = self.entries.remove(i);
            proof {
                let t = self.entries@;
                assert forall|k: Seq<char>| k != key@ implies find_key(t, k, 0)
                    == if find_key(s, k, 0) > i {
                    (find_key(s, k, 0) - 1) as nat
                } else {
                    find_key(s, k, 0)
                } && find_key(s, k, 0) != i by {
                    lemma_find_key(s, k, 0);
                    let at = if find_key(s, k, 0) > i {
                        (find_key(s, k, 0) - 1) as nat
                    } else {
                        find_key(s, k, 0)
                    };
                    lemma_find_key_is(t, k, at);
                }
                assert(self@.remove(key@) =~= held.remove(key@));
            }
            i = self.place(key);
        }
        assert(self@ =~= before.remove(key@));
    }
}

} // verus!
