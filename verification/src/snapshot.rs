//! Keys of a stored run.
use crate::blinds;
use crate::items;
use crate::items::{
    booster_by_key, consumable_by_key, joker_by_key, tag_by_key, voucher_by_key, Key,
};
use crate::keymap::{find_key, lemma_find_key, KeyMap};
use crate::registry;
use crate::text::{goes_before, law_texts_are_ordered, same_text, text_before};
use vstd::prelude::*;

verus! {

/// The registry's own copy of a key that a run can hold.
pub open spec fn interned(s: Seq<char>) -> Option<Key> {
    if s.len() == 0 {
        Some("")
    } else if s == "gros_michel_extinct"@ {
        Some("gros_michel_extinct")
    } else if items::tag_named(s) is Some {
        Some(items::tag_named(s)->0.key)
    } else if items::voucher_named(s) is Some {
        Some(items::voucher_named(s)->0.key)
    } else if items::booster_named(s) is Some {
        Some(items::booster_named(s)->0.key)
    } else if items::consumable_named(s) is Some {
        Some((items::consumable_named(s)->0).0.key)
    } else if items::joker_named(s) is Some {
        Some(items::joker_named(s)->0.key)
    } else {
        match blinds::blind_named(s) {
            Some(b) => Some(b.key),
            None => None,
        }
    }
}

/// Find the registry's own copy of a key: of a tag, voucher, pack, consumable,
/// joker or blind, the pool flag, or the empty key.
pub fn intern_key(s: &str) -> (r: Option<&'static str>)
    ensures
        r == interned(s@),
{
    if s.is_empty() {
        return Some("");
    }
    if same_text(s, "gros_michel_extinct") {
        return Some("gros_michel_extinct");
    }
    if let Some(t) = tag_by_key(s) {
        return Some(t.key);
    }
    if let Some(v) = voucher_by_key(s) {
        return Some(v.key);
    }
    if let Some(b) = booster_by_key(s) {
        return Some(b.key);
    }
    if let Some(c) = consumable_by_key(s) {
        return Some(c.0.key);
    }
    if let Some(j) = joker_by_key(s) {
        return Some(j.key);
    }
    match blinds::blind_by_key(s) {
        Some(b) => Some(b.key),
        None => None,
    }
}

/// The entries stand in the order of their keys, no key twice.
pub open spec fn in_key_order<V>(s: Seq<(String, V)>) -> bool {
    forall|i: int, j: int|
        0 <= i < j < s.len() ==> goes_before((#[trigger] s[i]).0@, (#[trigger] s[j]).0@)
}

/// Whether an entry has the key.
pub open spec fn has_entry<V>(s: Seq<(String, V)>, key: Seq<char>) -> bool {
    exists|i: int| 0 <= i < s.len() && (#[trigger] s[i]).0@ == key
}

/// The entries are those of the map, in the order of their keys.
pub open spec fn lists<V>(s: Seq<(String, V)>, m: Map<Seq<char>, V>) -> bool {
    &&& in_key_order(s)
    &&& forall|k: Seq<char>| #[trigger] m.dom().contains(k) <==> has_entry(s, k)
    &&& forall|i: int| 0 <= i < s.len() ==> m[(#[trigger] s[i]).0@] == s[i].1
}

/// The map of the first `n` entries. Of two entries with one key the later
/// counts.
pub open spec fn map_of<V>(s: Seq<(String, V)>, n: nat) -> Map<Seq<char>, V>
    decreases n,
{
    if n == 0 {
        Map::empty()
    } else {
        map_of(s, (n - 1) as nat).insert(s[n - 1].0@, s[n - 1].1)
    }
}

/// The place of the first entry whose key no registry holds, or the number of
/// entries.
pub open spec fn first_unknown<V>(s: Seq<(String, V)>, from: nat) -> nat
    decreases s.len() - from,
{
    if from >= s.len() || interned(s[from as int].0@) is None {
        from
    } else {
        first_unknown(s, from + 1)
    }
}

/// Store a map: its entries in the order of their keys, so that a map is
/// stored in one way only.
pub fn stored<V: Copy>(m: &KeyMap<V>) -> (r: Vec<(String, V)>)
    ensures
        lists(r@, m@),
{
    let ghost s = m.entries@;
    let mut out: Vec<(String, V)> = Vec::new();
    let mut i: usize = 0;
    while i < m.entries.len()
        invariant
            i <= m.entries.len(),
            s == m.entries@,
            in_key_order(out@),
            forall|j: int|
                0 <= j < out.len() ==> find_key(s, (#[trigger] out@[j]).0@, 0) < i && out@[j].1
                    == s[find_key(s, out@[j].0@, 0) as int].1,
            forall|p: int|
                0 <= p < i && find_key(s, (#[trigger] s[p]).0@, 0) == p ==> has_entry(
                    out@,
                    s[p].0@,
                ),
        decreases m.entries.len() - i,
    {
        let key: &str = m.entries[i].0.as_str();
        if m.place(key) == i {
            let ghost before = out@;
            let mut j: usize = 0;
            while j < out.len() && text_before(out[j].0.as_str(), key)
                invariant
                    j <= out.len(),
                    forall|k: int| 0 <= k < j ==> goes_before((#[trigger] out@[k]).0@, key@),
                decreases out.len() - j,
            {
                j = j + 1;
            }
            out.insert(j, (key.to_owned(), m.entries[i].1));
            proof {
                lemma_put_in_order(before, j as int, out@[j as int]);
                assert forall|p: int|
                    0 <= p < i + 1 && find_key(s, (#[trigger] s[p]).0@, 0) == p implies has_entry(
                    out@,
                    s[p].0@,
                ) by {
                    if p < i {
                        let k = choose|k: int| 0 <= k < before.len() && before[k].0@ == s[p].0@;
                        assert(out@[if k < j {
                            k
                        } else {
                            k + 1
                        }].0@ == s[p].0@);
                    } else {
                        assert(out@[j as int].0@ == s[p].0@);
                    }
                }
            }
        }
        i = i + 1;
    }
    proof {
        assert forall|k: Seq<char>| #[trigger] m@.dom().contains(k) <==> has_entry(out@, k) by {
            lemma_find_key(s, k, 0);
            if m@.dom().contains(k) {
                assert(s[find_key(s, k, 0) as int].0@ == k);
            }
        }
    }
    out
}

proof fn lemma_put_in_order<V>(s: Seq<(String, V)>, j: int, x: (String, V))
    requires
        in_key_order(s),
        0 <= j <= s.len(),
        forall|k: int| 0 <= k < j ==> goes_before((#[trigger] s[k]).0@, x.0@),
        j < s.len() ==> !goes_before(s[j].0@, x.0@),
        forall|k: int| 0 <= k < s.len() ==> (#[trigger] s[k]).0@ != x.0@,
    ensures
        in_key_order(s.insert(j, x)),
{
    let t = s.insert(j, x);
    assert forall|a: int, b: int| 0 <= a < b < t.len() implies goes_before(
        (#[trigger] t[a]).0@,
        (#[trigger] t[b]).0@,
    ) by {
        if a == j {
            law_texts_are_ordered(x.0@, s[j].0@, s[b - 1].0@);
        }
    }
}

/// Restore a stored map, or give the first key that no registry holds.
pub fn restored<V: Copy>(entries: &Vec<(String, V)>) -> (r: Result<KeyMap<V>, String>)
    ensures
        match r {
            Ok(m) => first_unknown(entries@, 0) == entries@.len() && m@ == map_of(
                entries@,
                entries@.len(),
            ),
            Err(key) => first_unknown(entries@, 0) < entries@.len() && key@ == entries@[first_unknown(
                entries@,
                0,
            ) as int].0@,
        },
{
    let mut m: KeyMap<V> = KeyMap::new();
    let mut i: usize = 0;
    while i < entries.len()
        invariant
            i <= entries.len(),
            first_unknown(entries@, i as nat) == first_unknown(entries@, 0),
            m@ == map_of(entries@, i as nat),
        decreases entries.len() - i,
    {
        match intern_key(entries[i].0.as_str()) {
            Some(key) => {
                proof {
                    law_interning_keeps_the_text(entries@[i as int].0@);
                }
                m.insert(key, entries[i].1);
            },
            None => {
                return Err(entries[i].0.as_str().to_owned());
            },
        }
        i = i + 1;
    }
    Ok(m)
}

// ---- laws ----------------------------------------------------------------

/// Interning keeps the text of a key.
pub proof fn law_interning_keeps_the_text(s: Seq<char>)
    ensures
        interned(s) matches Some(k) ==> k@ == s,
{
    reveal_strlit("");
    assert(s.len() == 0 ==> s =~= ""@);
    lemma_tag(s, 0);
    lemma_voucher(s, 0);
    lemma_booster(s, 0);
    lemma_tarot(s, 0);
    lemma_planet(s, 0);
    lemma_spectral(s, 0);
    lemma_joker(s, 0);
    lemma_boss(s, 0);
}


proof fn lemma_tag(s: Seq<char>, i: nat)
    ensures
        items::tag_from(s, i) matches Some(m) ==> m.key@ == s,
    decreases 24 - i,
{
    if i < 24 {
        lemma_tag(s, i + 1);
    }
}

proof fn lemma_tag_found(i: nat, from: nat)
    requires
        from <= i < 24,
    ensures
        items::tag_from(registry::tag(i as int).key@, from) is Some,
    decreases i - from,
{
    if from < i {
        lemma_tag_found(i, from + 1);
    }
}

proof fn lemma_voucher(s: Seq<char>, i: nat)
    ensures
        items::voucher_from(s, i) matches Some(m) ==> m.key@ == s,
    decreases 32 - i,
{
    if i < 32 {
        lemma_voucher(s, i + 1);
    }
}

proof fn lemma_voucher_found(i: nat, from: nat)
    requires
        from <= i < 32,
    ensures
        items::voucher_from(registry::voucher(i as int).key@, from) is Some,
    decreases i - from,
{
    if from < i {
        lemma_voucher_found(i, from + 1);
    }
}

proof fn lemma_booster(s: Seq<char>, i: nat)
    ensures
        items::booster_from(s, i) matches Some(m) ==> m.key@ == s,
    decreases 32 - i,
{
    if i < 32 {
        lemma_booster(s, i + 1);
    }
}

proof fn lemma_booster_found(i: nat, from: nat)
    requires
        from <= i < 32,
    ensures
        items::booster_from(registry::booster(i as int).key@, from) is Some,
    decreases i - from,
{
    if from < i {
        lemma_booster_found(i, from + 1);
    }
}

proof fn lemma_tarot(s: Seq<char>, i: nat)
    ensures
        items::tarot_from(s, i) matches Some(m) ==> m.key@ == s,
    decreases 22 - i,
{
    if i < 22 {
        lemma_tarot(s, i + 1);
    }
}

proof fn lemma_tarot_found(i: nat, from: nat)
    requires
        from <= i < 22,
    ensures
        items::tarot_from(registry::tarot(i as int).key@, from) is Some,
    decreases i - from,
{
    if from < i {
        lemma_tarot_found(i, from + 1);
    }
}

proof fn lemma_planet(s: Seq<char>, i: nat)
    ensures
        items::planet_from(s, i) matches Some(m) ==> m.key@ == s,
    decreases 12 - i,
{
    if i < 12 {
        lemma_planet(s, i + 1);
    }
}

proof fn lemma_planet_found(i: nat, from: nat)
    requires
        from <= i < 12,
    ensures
        items::planet_from(registry::planet(i as int).key@, from) is Some,
    decreases i - from,
{
    if from < i {
        lemma_planet_found(i, from + 1);
    }
}

proof fn lemma_spectral(s: Seq<char>, i: nat)
    ensures
        items::spectral_from(s, i) matches Some(m) ==> m.key@ == s,
    decreases 18 - i,
{
    if i < 18 {
        lemma_spectral(s, i + 1);
    }
}

proof fn lemma_spectral_found(i: nat, from: nat)
    requires
        from <= i < 18,
    ensures
        items::spectral_from(registry::spectral(i as int).key@, from) is Some,
    decreases i - from,
{
    if from < i {
        lemma_spectral_found(i, from + 1);
    }
}

proof fn lemma_joker(s: Seq<char>, i: nat)
    ensures
        items::joker_from(s, i) matches Some(m) ==> m.key@ == s,
    decreases 150 - i,
{
    if i < 150 {
        lemma_joker(s, i + 1);
    }
}

proof fn lemma_joker_found(i: nat, from: nat)
    requires
        from <= i < 150,
    ensures
        items::joker_from(registry::joker(i as int).key@, from) is Some,
    decreases i - from,
{
    if from < i {
        lemma_joker_found(i, from + 1);
    }
}

proof fn lemma_boss(s: Seq<char>, i: nat)
    ensures
        blinds::boss_from(s, i) matches Some(b) ==> b.key@ == s,
    decreases 28 - i,
{
    if i < 28 {
        lemma_boss(s, i + 1);
    }
}

/// Every key of the registries is found again.
pub proof fn law_registry_keys_are_interned(i: nat)
    ensures
        i < 24 ==> interned(registry::tag(i as int).key@) is Some,
        i < 32 ==> interned(registry::voucher(i as int).key@) is Some,
        i < 32 ==> interned(registry::booster(i as int).key@) is Some,
        i < 22 ==> interned(registry::tarot(i as int).key@) is Some,
        i < 12 ==> interned(registry::planet(i as int).key@) is Some,
        i < 18 ==> interned(registry::spectral(i as int).key@) is Some,
        i < 150 ==> interned(registry::joker(i as int).key@) is Some,
        i < 28 ==> interned(blinds::boss(i as int).key@) is Some,
{
    if i < 24 {
        lemma_tag_found(i, 0);
    }
    if i < 32 {
        lemma_voucher_found(i, 0);
    }
    if i < 32 {
        lemma_booster_found(i, 0);
    }
    if i < 22 {
        lemma_tarot_found(i, 0);
    }
    if i < 12 {
        lemma_planet_found(i, 0);
    }
    if i < 18 {
        lemma_spectral_found(i, 0);
    }
    if i < 150 {
        lemma_joker_found(i, 0);
    }
    if i < 28 {
        blinds::law_bosses_are_found(i, 0);
    }
}

/// A map is stored in one way only.
pub proof fn law_maps_are_stored_in_one_way<V>(
    s: Seq<(String, V)>,
    t: Seq<(String, V)>,
    m: Map<Seq<char>, V>,
)
    requires
        lists(s, m),
        lists(t, m),
    ensures
        s.len() == t.len(),
        forall|i: int| 0 <= i < s.len() ==> (#[trigger] s[i]).0@ == t[i].0@ && s[i].1 == t[i].1,
{
    lemma_as_long(s, t, m);
    lemma_as_long(t, s, m);
    assert forall|i: int| 0 <= i < s.len() implies (#[trigger] s[i]).0@ == t[i].0@ && s[i].1
        == t[i].1 by {
        lemma_same_keys(s, t, m, i as nat);
    }
}

/// The keys of two listings of a map agree.
proof fn lemma_same_keys<V>(
    s: Seq<(String, V)>,
    t: Seq<(String, V)>,
    m: Map<Seq<char>, V>,
    i: nat,
)
    requires
        lists(s, m),
        lists(t, m),
        i < s.len(),
        i < t.len(),
    ensures
        forall|k: int| 0 <= k <= i ==> (#[trigger] s[k]).0@ == t[k].0@,
    decreases i,
{
    if i > 0 {
        lemma_same_keys(s, t, m, (i - 1) as nat);
    }
    lemma_next_key(s, t, m, i as int);
    lemma_next_key(t, s, m, i as int);
    law_texts_are_ordered(s[i as int].0@, t[i as int].0@, s[i as int].0@);
}

/// Where two listings of a map agree so far, the next key of the one does not
/// go before that of the other.
proof fn lemma_next_key<V>(
    s: Seq<(String, V)>,
    t: Seq<(String, V)>,
    m: Map<Seq<char>, V>,
    i: int,
)
    requires
        lists(s, m),
        lists(t, m),
        0 <= i < s.len(),
        i < t.len(),
        forall|k: int| 0 <= k < i ==> (#[trigger] s[k]).0@ == t[k].0@,
    ensures
        !goes_before(s[i].0@, t[i].0@),
{
    let key = s[i].0@;
    assert(has_entry(s, key));
    assert(m.dom().contains(key));
    let p = choose|p: int| 0 <= p < t.len() && (#[trigger] t[p]).0@ == key;
    if p < i {
        assert(s[p].0@ == key);
        law_texts_are_ordered(key, key, key);
    } else if p > i {
        law_texts_are_ordered(t[i].0@, key, key);
    } else {
        law_texts_are_ordered(key, key, key);
    }
}

/// No listing of a map is longer than another.
proof fn lemma_as_long<V>(s: Seq<(String, V)>, t: Seq<(String, V)>, m: Map<Seq<char>, V>)
    requires
        lists(s, m),
        lists(t, m),
    ensures
        s.len() <= t.len(),
{
    if t.len() < s.len() {
        if t.len() > 0 {
            lemma_same_keys(s, t, m, (t.len() - 1) as nat);
        }
        let key = s[t.len() as int].0@;
        assert(has_entry(s, key));
        assert(m.dom().contains(key));
        let p = choose|p: int| 0 <= p < t.len() && (#[trigger] t[p]).0@ == key;
        assert(s[p].0@ == key);
        law_texts_are_ordered(key, key, key);
    }
}

/// A map whose keys the registries hold is restored as it was stored.
pub proof fn law_restoring_undoes_storing<V>(s: Seq<(String, V)>, m: Map<Seq<char>, V>)
    requires
        lists(s, m),
        forall|k: Seq<char>| #[trigger] m.dom().contains(k) ==> interned(k) is Some,
    ensures
        first_unknown(s, 0) == s.len(),
        map_of(s, s.len()) == m,
{
    lemma_all_known(s, m, 0);
    lemma_map_of(s, s.len());
    assert(map_of(s, s.len()) =~= m) by {
        assert forall|k: Seq<char>| #[trigger] m.dom().contains(k) <==> map_of(
            s,
            s.len(),
        ).dom().contains(k) by {
            assert(m.dom().contains(k) <==> has_entry(s, k));
        }
    }
}

proof fn lemma_all_known<V>(s: Seq<(String, V)>, m: Map<Seq<char>, V>, from: nat)
    requires
        lists(s, m),
        forall|k: Seq<char>| #[trigger] m.dom().contains(k) ==> interned(k) is Some,
        from <= s.len(),
    ensures
        first_unknown(s, from) == s.len(),
    decreases s.len() - from,
{
    if from < s.len() {
        assert(has_entry(s, s[from as int].0@));
        assert(m.dom().contains(s[from as int].0@));
        lemma_all_known(s, m, from + 1);
    }
}

proof fn lemma_map_of<V>(s: Seq<(String, V)>, n: nat)
    requires
        in_key_order(s),
        n <= s.len(),
    ensures
        forall|k: Seq<char>| #[trigger]
            map_of(s, n).dom().contains(k) <==> exists|i: int|
                0 <= i < n && (#[trigger] s[i]).0@ == k,
        forall|i: int| 0 <= i < n ==> map_of(s, n)[(#[trigger] s[i]).0@] == s[i].1,
    decreases n,
{
    if n > 0 {
        lemma_map_of(s, (n - 1) as nat);
        assert forall|i: int| 0 <= i < n - 1 implies (#[trigger] s[i]).0@ != s[n - 1].0@ by {
            law_texts_are_ordered(s[i].0@, s[i].0@, s[i].0@);
        }
        assert forall|k: Seq<char>| #[trigger]
            map_of(s, n).dom().contains(k) <==> exists|i: int|
                0 <= i < n && (#[trigger] s[i]).0@ == k by {
            if k == s[n - 1].0@ {
            } else if map_of(s, n).dom().contains(k) {
                assert(map_of(s, (n - 1) as nat).dom().contains(k));
            } else {
                assert(!map_of(s, (n - 1) as nat).dom().contains(k));
            }
        }
    }
}

} // verus!
