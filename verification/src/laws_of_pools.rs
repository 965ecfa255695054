//! What comes out of the pools: jokers of the rarity that was rolled.
use crate::double::Double;
use crate::exact;
use crate::items;
use crate::items::{current_pool, is_open, ConsumableSet, JokerId, PoolSpec, PoolState};
use crate::joker_keys::{
    law_jokers_have_their_own_keys, lemma_joker_keys_are_open, lemma_place, place,
};
use crate::key_marks::{lemma_consumable_marks, mark};
use crate::making::joker_of;
use crate::market;
use crate::registry;
use crate::registry::Key;
use crate::rng::Streams;
use crate::run::RunModel;
use crate::shop::{JokerArea, RunTag, ShopItemKind};
use vstd::prelude::*;

verus! {

/// Whether a joker of a rarity can be had.
pub open spec fn on_offer(st: PoolState, rarity: u8, id: JokerId) -> bool {
    id.row().rarity == rarity && st.offers_joker(id.row())
}

/// Whether entries are those of a rarity: what can be drawn are the keys of the
/// jokers of that rarity that can be had. Where none can be had there is the
/// plain Joker.
pub open spec fn of_rarity(entries: Seq<Key>, st: PoolState, rarity: u8) -> bool {
    &&& forall|i: int|
        0 <= i < entries.len() && is_open(#[trigger] entries[i]) ==> (exists|id: JokerId|
            #[trigger] on_offer(st, rarity, id) && entries[i] == id.row().key) || (entries
            == seq!["j_joker"] && forall|id: JokerId| !#[trigger] on_offer(st, rarity, id))
    &&& forall|id: JokerId|
        #[trigger] on_offer(st, rarity, id) ==> entries.contains(id.row().key)
    &&& entries.len() > 0
}

/// Whether a place of a pool is that of a joker.
spec fn takes(st: PoolState, rarity: u8, slot: (Key, bool), id: JokerId) -> bool {
    id.row().rarity == rarity && slot == (id.row().key, st.offers_joker(id.row()))
}

spec fn taken(st: PoolState, rarity: u8, slot: (Key, bool)) -> bool {
    exists|id: JokerId| #[trigger] takes(st, rarity, slot, id)
}

proof fn lemma_slots(st: PoolState, rarity: u8, n: nat)
    requires
        n <= 150,
    ensures
        forall|i: int|
            0 <= i < items::joker_slots(st, rarity, n).len() ==> taken(
                st,
                rarity,
                #[trigger] items::joker_slots(st, rarity, n)[i],
            ),
        forall|id: JokerId|
            #[trigger] place(id) < n && id.row().rarity == rarity ==> items::joker_slots(
                st,
                rarity,
                n,
            ).contains((id.row().key, st.offers_joker(id.row()))),
    decreases n,
{
    if n > 0 {
        lemma_slots(st, rarity, (n - 1) as nat);
        reveal(registry::joker);
        let before = items::joker_slots(st, rarity, (n - 1) as nat);
        let all = items::joker_slots(st, rarity, n);
        let here = JokerId::ALL[n - 1];
        assert(registry::joker(n - 1) == here.row());
        assert forall|i: int| 0 <= i < all.len() implies taken(
            st,
            rarity,
            #[trigger] all[i],
        ) by {
            if i < before.len() {
                assert(all[i] == before[i]);
            } else {
                assert(takes(st, rarity, all[i], here));
            }
        }
        assert forall|id: JokerId|
            #[trigger] place(id) < n && id.row().rarity == rarity implies all.contains(
            (id.row().key, st.offers_joker(id.row())),
        ) by {
            let slot = (id.row().key, st.offers_joker(id.row()));
            lemma_place(id);
            if place(id) == n - 1 {
                assert(all[all.len() - 1] == slot);
            } else {
                let k = choose|k: int| 0 <= k < before.len() && before[k] == slot;
                assert(all[k] == slot);
            }
        }
    }
}

proof fn lemma_of_rarity(st: PoolState, rarity: u8)
    ensures
        of_rarity(
            items::masked(items::joker_slots(st, rarity, 150), "j_joker"),
            st,
            rarity,
        ),
{
    let slots = items::joker_slots(st, rarity, 150);
    let entries = items::masked(slots, "j_joker");
    lemma_slots(st, rarity, 150);
    assert forall|id: JokerId| #[trigger] on_offer(st, rarity, id) implies entries.contains(
        id.row().key,
    ) by {
        lemma_place(id);
        let k = choose|k: int|
            0 <= k < slots.len() && slots[k] == (id.row().key, st.offers_joker(id.row()));
        assert(slots[k].1);
        assert(entries[k] == id.row().key);
    }
    assert forall|i: int| 0 <= i < entries.len() && is_open(#[trigger] entries[i]) implies (exists|
        id: JokerId,
    | #[trigger]
        on_offer(st, rarity, id) && entries[i] == id.row().key) || (entries == seq!["j_joker"]
        && forall|id: JokerId| !#[trigger] on_offer(st, rarity, id)) by {
        if exists|k: int| 0 <= k < slots.len() && (#[trigger] slots[k]).1 {
            assert(slots[i].1);
            assert(taken(st, rarity, slots[i]));
            let id = choose|id: JokerId| #[trigger] takes(st, rarity, slots[i], id);
            assert(on_offer(st, rarity, id));
        } else {
            assert forall|id: JokerId| !#[trigger] on_offer(st, rarity, id) by {
                if on_offer(st, rarity, id) {
                    lemma_place(id);
                    let k = choose|k: int|
                        0 <= k < slots.len() && slots[k] == (
                            id.row().key,
                            st.offers_joker(id.row()),
                        );
                    assert(slots[k].1);
                }
            }
        }
    }
}

/// A poll above 0.95 opens the pool of the Rare jokers, another above 0.7 that of
/// the Uncommon ones, and every other that of the Common ones; the Legendary
/// jokers are a pool of their own.
pub proof fn law_polls_open_the_pool_of_their_rarity(
    s: Streams,
    st: PoolState,
    poll: Double,
    append: Key,
)
    ensures
        ({
            let pool = current_pool(
                s,
                PoolSpec::Joker { rarity: Some(poll), legendary: false, append },
                st,
            ).entries;
            let rolled = current_pool(
                s,
                PoolSpec::Joker { rarity: None, legendary: false, append },
                st,
            ).entries;
            let rare = Double::frac(95, 100).below(poll);
            let uncommon = !rare && Double::frac(7, 10).below(poll);
            &&& rare ==> of_rarity(pool, st, 3)
            &&& uncommon ==> of_rarity(pool, st, 2)
            &&& !rare && !uncommon ==> of_rarity(pool, st, 1)
            &&& s.unit(items::rarity_key(st.ante, append@)) == poll ==> rolled == pool
        }),
        of_rarity(
            current_pool(s, PoolSpec::Joker { rarity: None, legendary: true, append }, st).entries,
            st,
            4,
        ),
{
    reveal(current_pool);
    lemma_of_rarity(st, 1);
    lemma_of_rarity(st, 2);
    lemma_of_rarity(st, 3);
    lemma_of_rarity(st, 4);
}

proof fn lemma_drawn_of_rarity(s: Streams, entries: Seq<Key>, key: Seq<char>, st: PoolState, r: u8)
    requires
        of_rarity(entries, st, r),
        exists|id: JokerId| #[trigger] on_offer(st, r, id),
    ensures
        joker_of(items::drawn(s, entries, key).0@).row().rarity == r,
{
    let id = choose|id: JokerId| #[trigger] on_offer(st, r, id);
    lemma_joker_keys_are_open(id);
    let k = choose|k: int| 0 <= k < entries.len() && entries[k] == id.row().key;
    items::law_drawn_entries_are_open(s, entries, key, k);
    let d = items::drawn(s, entries, key).0;
    let i = choose|i: int| 0 <= i < entries.len() && entries[i] == d;
    assert(is_open(entries[i]));
    let other = choose|other: JokerId|
        #[trigger] on_offer(st, r, other) && entries[i] == other.row().key;
    law_jokers_have_their_own_keys(other, other);
}

/// A joker that is made for a poll is of the rarity of that poll, wherever one
/// can be had: Rare above 0.95, else Uncommon above 0.7, else Common; and a
/// Legendary one is Legendary.
pub proof fn law_made_jokers_are_of_their_rarity(
    m: RunModel,
    poll: Double,
    append: Key,
    area: JokerArea,
    rarity: u8,
)
    requires
        exists|id: JokerId| #[trigger] on_offer(m.pool_state(seq![]), rarity, id),
    ensures
        rarity == 3 && Double::frac(95, 100).below(poll) ==> m.joker_made(
            Some(poll),
            false,
            append,
            area,
        ).0.id.row().rarity == 3,
        rarity == 2 && !Double::frac(95, 100).below(poll) && Double::frac(7, 10).below(poll)
            ==> m.joker_made(Some(poll), false, append, area).0.id.row().rarity == 2,
        rarity == 1 && !Double::frac(95, 100).below(poll) && !Double::frac(7, 10).below(poll)
            ==> m.joker_made(Some(poll), false, append, area).0.id.row().rarity == 1,
        rarity == 4 ==> m.joker_made(None, true, append, area).0.id.row().rarity == 4,
{
    reveal(RunModel::joker_made);
    let st = m.pool_state(seq![]);
    law_polls_open_the_pool_of_their_rarity(m.s, st, poll, append);
    let p = current_pool(
        m.s,
        PoolSpec::Joker { rarity: Some(poll), legendary: false, append },
        st,
    );
    let q = current_pool(m.s, PoolSpec::Joker { rarity: None, legendary: true, append }, st);
    if of_rarity(p.entries, st, rarity) {
        lemma_drawn_of_rarity(p.streams, p.entries, p.key, st, rarity);
    }
    if of_rarity(q.entries, st, rarity) {
        lemma_drawn_of_rarity(q.streams, q.entries, q.key, st, rarity);
    }
}

// ---- who asks for which rarity -------------------------------------------

/// Whether some joker of a rarity can be had in a run.
pub open spec fn can_be_had(m: RunModel, rarity: u8) -> bool {
    exists|id: JokerId| #[trigger] on_offer(m.pool_state(seq![]), rarity, id)
}

/// The joker of a Rare Tag is Rare, that of an Uncommon Tag Uncommon, and both
/// are free.
pub proof fn law_tags_bring_jokers_of_their_rarity(m: RunModel, tag: RunTag)
    requires
        m.tags == seq![tag],
    ensures
        tag.key@ == "tag_rare"@ && can_be_had(m, 3) && market::rare_left(m.jokers) ==> {
            let item = m.slot_filled().0;
            item.kind matches ShopItemKind::Joker(j) && j.id.row().rarity == 3 && item.couponed
        },
        tag.key@ == "tag_uncommon"@ && can_be_had(m, 2) ==> {
            let item = m.slot_filled().0;
            item.kind matches ShopItemKind::Joker(j) && j.id.row().rarity == 2 && item.couponed
        },
{
    exact::lemma_fractions_in_order();
    reveal_strlit("tag_rare");
    reveal_strlit("tag_uncommon");
    assert("tag_rare"@.len() == 8 && "tag_uncommon"@.len() == 12);
    reveal_with_fuel(market::bringing_tag, 2);
    let m1 = RunModel { tags: m.tags.remove(0), ..m };
    assert(m1.pool_state(seq![]) == m.pool_state(seq![]));
    if can_be_had(m, 3) {
        law_made_jokers_are_of_their_rarity(m1, Double::of(1), "rta", JokerArea::Shop, 3);
    }
    if can_be_had(m, 2) {
        law_made_jokers_are_of_their_rarity(m1, Double::frac(9, 10), "uta", JokerArea::Shop, 2);
    }
    reveal(RunModel::slot_filled);
    reveal(RunModel::tag_brought);
    reveal(RunModel::tag_finished);
}

/// Each joker of a Top-up Tag is Common; it is one more joker if there is room.
pub proof fn law_topping_up_brings_common_jokers(m: RunModel)
    ensures
        m.jokers.len() < m.limits.joker_slots && can_be_had(m, 1)
            ==> m.topped_up().jokers.last().id.row().rarity == 1,
        m.jokers.len() >= m.limits.joker_slots ==> m.topped_up() == m,
{
    exact::lemma_fractions_in_order();
    reveal(RunModel::topped_up);
    reveal(RunModel::with_joker);
    if can_be_had(m, 1) {
        law_made_jokers_are_of_their_rarity(m, Double::of(0), "top", JokerArea::Direct, 1);
    }
}

/// The joker of the Wraith is Rare and takes all the money; that of the Soul is
/// Legendary.
pub proof fn law_spectral_jokers_are_of_their_rarity(m: RunModel)
    ensures
        m.joker_effect("c_wraith"@) matches Some(n) && n.purse.dollars == 0 && (can_be_had(m, 3)
            ==> n.jokers.last().id.row().rarity == 3),
        m.joker_effect("c_soul"@) matches Some(n) && (can_be_had(m, 4)
            ==> n.jokers.last().id.row().rarity == 4),
{
    exact::lemma_fractions_in_order();
    reveal_strlit("c_wraith");
    reveal_strlit("c_soul");
    reveal_strlit("c_judgement");
    reveal(RunModel::joker_effect);
    reveal(RunModel::joker_joined);
    reveal(RunModel::with_joker);
    assert("c_wraith"@.len() == 8 && "c_soul"@.len() == 6 && "c_judgement"@.len() == 11);
    if can_be_had(m, 3) {
        law_made_jokers_are_of_their_rarity(
            m,
            Double::frac(99, 100),
            "wra",
            JokerArea::Direct,
            3,
        );
    }
    if can_be_had(m, 4) {
        law_made_jokers_are_of_their_rarity(m, Double::of(0), "sou", JokerArea::Direct, 4);
    }
}

// ---- consumables ---------------------------------------------------------

/// Whether a key is that of a Tarot, Planet or Spectral card, as asked.
pub open spec fn of_set(set: ConsumableSet, key: Key) -> bool {
    match set {
        ConsumableSet::Tarot => exists|i: int|
            0 <= i < 22 && (#[trigger] registry::tarot(i)).key == key,
        ConsumableSet::Planet => exists|i: int|
            0 <= i < 12 && (#[trigger] registry::planet(i)).key == key,
        ConsumableSet::Spectral => exists|i: int|
            0 <= i < 18 && (#[trigger] registry::spectral(i)).key == key,
    }
}

/// The key in a place of a set.
spec fn key_in(set: ConsumableSet, i: int) -> Key {
    match set {
        ConsumableSet::Tarot => registry::tarot(i).key,
        ConsumableSet::Planet => registry::planet(i).key,
        ConsumableSet::Spectral => registry::spectral(i).key,
    }
}

spec fn keys_in(set: ConsumableSet) -> int {
    match set {
        ConsumableSet::Tarot => 22,
        ConsumableSet::Planet => 12,
        ConsumableSet::Spectral => 18,
    }
}

#[verifier::rlimit(40)]
proof fn lemma_open_keys(set: ConsumableSet, i: int)
    requires
        0 <= i < keys_in(set),
    ensures
        is_open(key_in(set, i)),
        of_set(set, key_in(set, i)),
{
    reveal(registry::tarot);
    reveal(registry::planet);
    reveal(registry::spectral);
    lemma_consumable_marks();
    assert(mark("UNAVAILABLE"@) == 24143045) by {
        reveal(mark);
        reveal_strlit("UNAVAILABLE");
    }
}

proof fn lemma_fallbacks()
    ensures
        of_set(ConsumableSet::Tarot, "c_strength"),
        of_set(ConsumableSet::Planet, "c_pluto"),
        of_set(ConsumableSet::Spectral, "c_incantation"),
        is_open("c_strength"),
        is_open("c_pluto"),
        is_open("c_incantation"),
{
    lemma_consumable_marks();
    assert(mark("UNAVAILABLE"@) == 24143045) by {
        reveal(mark);
        reveal_strlit("UNAVAILABLE");
    }
    assert(registry::tarot(11).key == "c_strength") by {
        reveal(registry::tarot);
    }
    assert(registry::planet(8).key == "c_pluto") by {
        reveal(registry::planet);
    }
    assert(registry::spectral(2).key == "c_incantation") by {
        reveal(registry::spectral);
    }
}

/// A consumable that is drawn is of the set that it is drawn from.
pub proof fn law_consumables_come_from_their_set(m: RunModel, set: ConsumableSet, append: Key)
    ensures
        of_set(set, m.consumable_drawn(set, append, false).0),
{
    reveal(RunModel::consumable_drawn);
    reveal(current_pool);
    let st = m.pool_state(seq![]);
    let spec = PoolSpec::Consumable { set, append };
    let p = current_pool(m.s, spec, st);
    let slots = items::consumable_slots(st, set);
    lemma_fallbacks();
    assert(slots.len() == keys_in(set));
    assert forall|i: int| 0 <= i < slots.len() implies (#[trigger] slots[i]).0 == key_in(set, i)
        && is_open(slots[i].0) && of_set(set, slots[i].0) by {
        lemma_open_keys(set, i);
    }
    let some = exists|i: int| 0 <= i < slots.len() && (#[trigger] slots[i]).1;
    let j = if some {
        choose|i: int| 0 <= i < slots.len() && (#[trigger] slots[i]).1
    } else {
        0
    };
    assert(0 <= j < p.entries.len() && is_open(p.entries[j]));
    items::law_drawn_entries_are_open(p.streams, p.entries, p.key, j);
    let d = items::drawn(p.streams, p.entries, p.key).0;
    let k = choose|k: int| 0 <= k < p.entries.len() && p.entries[k] == d;
    if some {
        assert(slots[k].1);
        assert(of_set(set, slots[k].0));
    }
}

/// The Emperor makes Tarot cards and the High Priestess Planet cards, as long as there is
/// room.
pub proof fn law_supplied_consumables_are_of_their_set(m: RunModel, set: ConsumableSet, append: &'static str)
    ensures
        m.consumables.len() < m.limits.consumable_slots ==> m.supplied(set, append).consumables.len()
            == m.consumables.len() + 1 && of_set(
            set,
            m.supplied(set, append).consumables.last().key,
        ),
        m.consumables.len() >= m.limits.consumable_slots ==> m.supplied(set, append) == m,
{
    law_consumables_come_from_their_set(m, set, append);
    reveal(RunModel::consumable_drawn);
}

} // verus!
