//! The count of what is in use is right after every action.
use crate::answers::law_usable_consumables_work;
use crate::blinds::ActiveBlind;
use crate::cards::{Card, Edition};
use crate::course;
use crate::deck;
use crate::double::Double;
use crate::items;
use crate::items::{ConsumableSet, PackKind, PoolSpec};
use crate::joker_keys::{law_jokers_have_their_own_keys, lemma_joker_keys_are_open};
use crate::jokers::engine::{Discarding, Ending, Engine, Setting};
use crate::jokers::{owns, EngineHooks, OutEvent};
use crate::making;
use crate::market;
use crate::numbering::lemma_chosen;
use crate::order;
use crate::play;
use crate::registry;
use crate::registry::{JokerId, Key};
use crate::round;
use crate::round::disabling;
use crate::run::{
    BlindStage, Counters, Limits, Offers, Purse, Record, Round, RunModel, State, Track,
};
use crate::scoring;
use crate::scoring::JokerHooks;
use crate::shop::{
    JokerArea, OwnedConsumable, OwnedJoker, PackItem, PackOffer, PackReturn, RunTag, ShopItem,
    ShopItemKind, ShopModel, TagContext, VoucherOffer,
};
use crate::sound::lemma_round_cards;
use crate::stock::{
    above, balances, consumable_keys, count, drops, fills, frugal, gains, group_balances, has_key,
    item_keys, joker_keys, leaves, lemma_accounted, lemma_consumable_kept, lemma_count_none,
    lemma_count_push, lemma_count_remove, lemma_dropped, lemma_drops_more, lemma_drops_nothing,
    lemma_empty_shop, lemma_filled, lemma_fills_more, lemma_fills_nothing, lemma_gained_nothing,
    lemma_gains_nothing, lemma_item_shown, lemma_item_taken, lemma_joker_kept, lemma_joker_pushed,
    lemma_joker_removed, lemma_pack_gone, lemma_pack_item_taken, lemma_released, lemma_released_if,
    lemma_same_keys, lemma_same_pack, lemma_same_row, lemma_settles_and_spends,
    lemma_settles_itself, lemma_shop_gone, lemma_using, lemma_voucher_taken, pack_keys,
    same_places, settles, spends, voucher_keys,
};
use crate::tags;
use crate::tarots;
use crate::tarots::CreateKind;
use crate::trade;
use crate::usage;
use crate::windows::{
    lemma_destroyed_from, lemma_discarding, lemma_ending, lemma_first_hand, lemma_played,
    lemma_setting, same_row, works,
};
use vstd::prelude::*;

verus! {

broadcast use group_balances;

// ---- draws ---------------------------------------------------------------

broadcast proof fn lemma_consumable_drawn(
    m: RunModel,
    set: ConsumableSet,
    append: Key,
    soulable: bool,
)
    ensures
        leaves(m, (#[trigger] m.consumable_drawn(set, append, soulable)).1),
{
    reveal(RunModel::consumable_drawn);
}

broadcast proof fn lemma_first_state(m: RunModel, id: JokerId)
    ensures
        leaves(m, (#[trigger] m.first_state(id)).1),
{
    reveal(RunModel::first_state);
}

broadcast proof fn lemma_voucher_drawn(m: RunModel, from_tag: bool)
    ensures
        leaves(m, (#[trigger] m.voucher_drawn(from_tag)).1),
{
    reveal(RunModel::voucher_drawn);
}

broadcast proof fn lemma_tag_drawn(m: RunModel)
    ensures
        leaves(m, (#[trigger] m.tag_drawn()).1),
{
    reveal(RunModel::tag_drawn);
}

broadcast proof fn lemma_reroll_priced(m: RunModel, skip: bool)
    ensures
        leaves(m, #[trigger] m.reroll_priced(skip)),
{
    reveal(RunModel::reroll_priced);
}

broadcast proof fn lemma_marks_reset(m: RunModel)
    ensures
        leaves(m, #[trigger] m.marks_reset()),
{
    reveal(RunModel::idol_reset);
    reveal(RunModel::mail_reset);
    reveal(RunModel::castle_reset);
    reveal(RunModel::ancient_reset);
}

/// Whether a key is that of a joker.
spec fn names_joker(key: Key) -> bool {
    exists|x: int| 0 <= x < 150 && key == (#[trigger] registry::joker(x)).key
}

proof fn lemma_slots_are_jokers(st: items::PoolState, rarity: u8, n: nat)
    requires
        n <= 150,
    ensures
        forall|i: int|
            0 <= i < items::joker_slots(st, rarity, n).len() ==> names_joker(
                (#[trigger] items::joker_slots(st, rarity, n)[i]).0,
            ),
    decreases n,
{
    if n > 0 {
        lemma_slots_are_jokers(st, rarity, (n - 1) as nat);
        let rest = items::joker_slots(st, rarity, (n - 1) as nat);
        let all = items::joker_slots(st, rarity, n);
        assert forall|i: int| 0 <= i < all.len() implies names_joker((#[trigger] all[i]).0) by {
            if i < rest.len() {
                assert(all[i] == rest[i]);
            } else {
                assert(all[i].0 == registry::joker(n - 1).key);
            }
        }
    }
}

/// A joker is drawn by its own key.
proof fn lemma_joker_drawn(m: RunModel, rarity: Option<Double>, legendary: bool, append: Key)
    ensures
        ({
            let key = m.rolled(PoolSpec::Joker { rarity, legendary, append }).0;
            making::joker_of(key@).row().key@ == key@
        }),
{
    reveal(registry::joker);
    reveal(items::current_pool);
    reveal(items::rolled);
    let spec = PoolSpec::Joker { rarity, legendary, append };
    let st = m.pool_state(seq![]);
    let p = items::current_pool(m.s, spec, st);
    let r = if legendary {
        4u8
    } else if rarity is Some {
        items::rarity_of(rarity->0)
    } else {
        items::rarity_of(m.s.unit(items::rarity_key(st.ante, append@)))
    };
    let slots = items::joker_slots(st, r, 150);
    lemma_slots_are_jokers(st, r, 150);
    law_jokers_have_their_own_keys(JokerId::Joker, JokerId::Joker);
    lemma_joker_keys_are_open(JokerId::Joker);
    assert("j_joker"@ == JokerId::Joker.row().key@) by {
        reveal(JokerId::row);
    }
    assert(p.entries == items::masked(slots, "j_joker"));
    let key = items::drawn(p.streams, p.entries, p.key).0;
    if exists|i: int| 0 <= i < slots.len() && (#[trigger] slots[i]).1 {
        let i = choose|i: int| 0 <= i < slots.len() && (#[trigger] slots[i]).1;
        assert(names_joker(slots[i].0));
        let x = choose|x: int| 0 <= x < 150 && slots[i].0 == (#[trigger] registry::joker(x)).key;
        lemma_joker_keys_are_open(JokerId::ALL[x]);
        items::law_drawn_entries_are_open(p.streams, p.entries, p.key, i);
        let j = choose|j: int| 0 <= j < p.entries.len() && p.entries[j] == key;
        assert(slots[j].0 == key);
        assert(names_joker(slots[j].0));
        let y = choose|y: int| 0 <= y < 150 && slots[j].0 == (#[trigger] registry::joker(y)).key;
        law_jokers_have_their_own_keys(JokerId::ALL[y], JokerId::Joker);
    } else {
        items::law_drawn_entries_are_open(p.streams, p.entries, p.key, 0);
    }
}

broadcast proof fn lemma_joker_made(
    m: RunModel,
    rarity: Option<Double>,
    legendary: bool,
    append: Key,
    area: JokerArea,
)
    ensures
        ({
            let (j, b) = #[trigger] m.joker_made(rarity, legendary, append, area);
            gains(m, b, Some(j.id.row().key@))
        }),
{
    reveal(RunModel::joker_made);
    reveal(RunModel::first_state);
    lemma_joker_drawn(m, rarity, legendary, append);
    let (key, m1) = m.rolled(PoolSpec::Joker { rarity, legendary, append });
    lemma_using(m1, key@);
    let (j, b) = m.joker_made(rarity, legendary, append, area);
    let x = m1.numbered().using(key@);
    assert(leaves(x, b));
    assert(leaves(m, m1));
    assert(j.id.row().key@ == key@);
    assert(gains(m, b, Some(key@)));
}

broadcast group group_draws {
    lemma_consumable_drawn,
    lemma_first_state,
    lemma_voucher_drawn,
    lemma_tag_drawn,
    lemma_reroll_priced,
    lemma_marks_reset,
    lemma_joker_made,
}

/// A consumable made and kept.
broadcast proof fn lemma_with_consumable(m: RunModel, key: Key)
    ensures
        balances(m, #[trigger] m.with_consumable(key)),
{
    let a = m.made_consumable(key);
    lemma_using(m, key@);
    let c = m.new_consumable(key);
    let b = m.with_consumable(key);
    lemma_consumable_kept(a, b, c);
}

// ---- jokers --------------------------------------------------------------

broadcast proof fn lemma_passives_off(m: RunModel, j: OwnedJoker)
    ensures
        leaves(m, #[trigger] m.passives_off(j)),
{
    broadcast use group_draws;

    reveal(RunModel::passives_off);
    reveal(RunModel::with_free_rerolls);
}

/// A joker goes, and its key with it.
broadcast proof fn lemma_without_joker(m: RunModel, i: nat)
    requires
        i < m.jokers.len(),
    ensures
        balances(m, #[trigger] m.without_joker(i)),
{
    broadcast use lemma_passives_off;

    reveal(RunModel::without_joker);
    let j = m.jokers[i as int];
    let key = j.id.row().key@;
    let a = RunModel { jokers: m.jokers.remove(i as int), ..m };
    assert(gains(m, a, Some(key))) by {
        reveal(gains);
        assert forall|k: Seq<char>|
            (#[trigger] a.spare(k)) == m.spare(k) + has_key(Some(key), k) by {
            reveal(above);
            lemma_joker_removed(m.jokers, i as int, k);
        }
    }
    let b = if j.debuffed {
        a
    } else {
        a.passives_off(j)
    };
    let c = if j.edition == Edition::Negative {
        b.with_joker_slots(b.limits.joker_slots.wrapping_sub(1))
    } else {
        b
    };
    assert(leaves(a, c));
    assert(gains(m, c, Some(key)));
    lemma_released(c, key);
}

broadcast proof fn lemma_passives_on(m: RunModel, j: OwnedJoker, d: spec_fn(RunModel) -> RunModel)
    requires
        frugal(d),
    ensures
        balances(m, #[trigger] m.passives_on(j, d)),
{
    reveal(RunModel::passives_on);
    reveal(RunModel::with_free_rerolls);
    assert(balances(m, d(m)));
    let b = m.passives_on(j, d);
    assert(b == d(m) || leaves(m, b)) by {
        broadcast use group_draws;

    }
}

/// A joker that was counted joins the others.
broadcast proof fn lemma_with_joker(m: RunModel, j: OwnedJoker, d: spec_fn(RunModel) -> RunModel)
    requires
        frugal(d),
    ensures
        spends(m, #[trigger] m.with_joker(j, d), Some(j.id.row().key@)),
{
    reveal(RunModel::with_joker);
    let a = if j.edition == Edition::Negative {
        m.with_joker_slots(m.limits.joker_slots.wrapping_add(1))
    } else {
        m
    };
    lemma_passives_on(a, j, d);
    let p = a.passives_on(j, d);
    let b = RunModel { jokers: p.jokers.push(j), ..p };
    assert(leaves(m, a));
    assert(balances(m, p));
    lemma_joker_kept(p, b, j);
    lemma_settles_and_spends(m, p, b, Some(j.id.row().key@));
}

broadcast proof fn lemma_joker_debuffed(
    m: RunModel,
    i: nat,
    debuff: bool,
    d: spec_fn(RunModel) -> RunModel,
)
    requires
        frugal(d),
    ensures
        balances(m, #[trigger] m.joker_debuffed(i, debuff, d)),
{
    broadcast use {lemma_passives_off, lemma_passives_on};

    reveal(RunModel::joker_debuffed);
    if i < m.jokers.len() {
        let k = OwnedJoker { debuffed: debuff, ..m.jokers[i as int] };
        let a = RunModel { jokers: m.jokers.update(i as int, k), ..m };
        assert(joker_keys(a.jokers) =~= joker_keys(m.jokers));
        lemma_same_keys(m, a);
    }
}

broadcast proof fn lemma_jokers_cleared(
    m: RunModel,
    i: nat,
    n: nat,
    d: spec_fn(RunModel) -> RunModel,
)
    requires
        frugal(d),
    ensures
        balances(m, #[trigger] m.jokers_cleared(i, n, d)),
    decreases n - i,
{
    reveal(RunModel::jokers_cleared);
    if i < n {
        lemma_joker_debuffed(m, i, false, d);
        lemma_jokers_cleared(m.joker_debuffed(i, false, d), i + 1, n, d);
    }
}

broadcast proof fn lemma_jokers_created(m: RunModel, count: nat, d: spec_fn(RunModel) -> RunModel)
    requires
        frugal(d),
    ensures
        balances(m, #[trigger] m.jokers_created(count, d)),
    decreases count,
{
    reveal(RunModel::jokers_created);
    if count > 0 {
        lemma_jokers_created(m, (count - 1) as nat, d);
        let a = m.jokers_created((count - 1) as nat, d);
        lemma_joker_made(a, Some(Double::of(0)), false, "rif", JokerArea::Direct);
        let (j, b) = a.joker_made(Some(Double::of(0)), false, "rif", JokerArea::Direct);
        lemma_with_joker(b, j, d);
    }
}

proof fn lemma_found_in(ids: Seq<u32>, x: u32, from: nat)
    ensures
        making::found_from(ids, x, from) matches Some(i) ==> i < ids.len(),
    decreases ids.len() - from,
{
    if from < ids.len() {
        lemma_found_in(ids, x, from + 1);
    }
}

broadcast proof fn lemma_event_done(m: RunModel, e: OutEvent, d: spec_fn(RunModel) -> RunModel)
    requires
        frugal(d),
    ensures
        balances(m, #[trigger] m.event_done(e, d)),
{
    broadcast use {lemma_consumable_drawn, lemma_jokers_created};

    reveal(RunModel::event_done);
    match e {
        OutEvent::CreateConsumable(set, append) => {
            let (key, a) = m.consumable_drawn(set, append, false);
            assert(leaves(m, a));
            lemma_with_consumable(a, key);
        },
        OutEvent::DestroyJoker(id) => {
            lemma_found_in(making::joker_ids(m.jokers), id, 0);
            if let Some(i) = making::found(making::joker_ids(m.jokers), id) {
                lemma_without_joker(m, i);
            }
        },
        OutEvent::DisableBoss => {
            assert(balances(m, d(m)));
        },
        OutEvent::GiftCard => {
            reveal(RunModel::gifts_given);
            let g = m.gifts_given();
            assert(joker_keys(g.jokers) =~= joker_keys(m.jokers));
            assert(consumable_keys(g.consumables) =~= consumable_keys(m.consumables));
            lemma_same_keys(m, g);
        },
        OutEvent::CreateMarbleStone => {
            reveal(RunModel::marble_made);
            assert(leaves(m, m.marble_made()));
        },
        OutEvent::CreateCertificate => {
            reveal(RunModel::certificate_made);
            assert(leaves(m, m.certificate_made()));
        },
        OutEvent::CreateJokers(count) => {
            lemma_jokers_created(m, count as nat, d);
        },
        _ => {
            assert(leaves(m, m.event_done(e, d)));
        },
    }
}

broadcast proof fn lemma_events_done(
    m: RunModel,
    events: Seq<OutEvent>,
    i: nat,
    d: spec_fn(RunModel) -> RunModel,
)
    requires
        frugal(d),
    ensures
        balances(m, #[trigger] m.events_done(events, i, d)),
    decreases events.len() - i,
{
    reveal(RunModel::events_done);
    if i < events.len() {
        lemma_event_done(m, events[i as int], d);
        lemma_events_done(m.event_done(events[i as int], d), events, i + 1, d);
    }
}

/// Jokers that did some work come back to the run.
proof fn lemma_rejoined(m: RunModel, e: Engine, d: spec_fn(RunModel) -> RunModel)
    requires
        frugal(d),
        same_row(m.jokers, e.jokers),
    ensures
        balances(m, m.rejoined(e, d)),
{
    reveal(RunModel::settled);
    lemma_same_row(m.jokers, e.jokers);
    let a = RunModel {
        jokers: e.jokers,
        counters: Counters {
            sort_id: m.counters.sort_id.saturating_add(e.out.sort_ids_used),
            playing_card: m.counters.playing_card.wrapping_add(e.out.playing_cards_delta),
        },
        ..m
    };
    lemma_same_keys(m, a);
    lemma_events_done(a, e.out.events, 0, d);
}

// ---- the end of a round --------------------------------------------------

proof fn lemma_hushing()
    ensures
        frugal(round::hushing()),
        frugal(disabling(false)),
{
    reveal(RunModel::quieted);
    assert forall|m: RunModel| balances(m, #[trigger] round::hushing()(m)) by {
        assert(leaves(m, round::hushing()(m)));
    }
}

proof fn lemma_with_planets(m: RunModel, n: nat)
    ensures
        balances(m, m.with_planets(n)),
    decreases n,
{
    broadcast use lemma_with_consumable;

    if m.record.last_hand_played is Some && n > 0 {
        lemma_with_planets(m, (n - 1) as nat);
    }
}

proof fn lemma_counted_out(m: RunModel, d: spec_fn(RunModel) -> RunModel)
    requires
        frugal(d),
    ensures
        balances(m, m.counted_out(d)),
{
    reveal(RunModel::counted_out);
    reveal(RunModel::held_done);
    let h = m.held_done();
    lemma_round_cards(
        scoring::RoundCards {
            hooks: m.engine(seq![]),
            s: m.s,
            dollars: m.purse.dollars,
            planets: 0,
        },
        m.hand,
        m.consumable_room(),
        m.hand.len(),
    );
    let (bonus, e) = EngineHooks::payouts(h.hooks);
    let a = RunModel { s: h.s, purse: Purse { dollars: h.dollars, ..m.purse }, ..m };
    assert(leaves(m, a));
    lemma_rejoined(a, e, d);
    let b = a.rejoined(e, d);
    lemma_with_planets(b, h.planets);
    assert(leaves(b.with_planets(h.planets), m.counted_out(d)));
}

proof fn lemma_put_away(m: RunModel)
    ensures
        leaves(m, m.gathered().expired().marks_reset()),
{
    broadcast use {lemma_voucher_drawn, lemma_reroll_priced, lemma_marks_reset};

    reveal(RunModel::gathered);
    reveal(RunModel::expired);
    assert(leaves(m, m.gathered()));
    assert(leaves(m.gathered(), m.gathered().expired()));
}

proof fn lemma_jokers_shown(m: RunModel)
    ensures
        balances(m, m.jokers_shown()),
{
    assert(joker_keys(m.jokers_shown().jokers) =~= joker_keys(m.jokers));
    lemma_same_keys(m, m.jokers_shown());
}

proof fn lemma_won_round(m: RunModel, d: spec_fn(RunModel) -> RunModel)
    requires
        frugal(d),
    ensures
        balances(m, m.won_round(d)),
{
    let r = m.recorded();
    assert(leaves(m, r));
    lemma_counted_out(r, d);
    let manacle = m.round.active_blind matches Some(b) && b.named("The Manacle"@) && !b.disabled;
    let c = if manacle {
        r.counted_out(d).resized(1)
    } else {
        r.counted_out(d)
    };
    assert(leaves(r.counted_out(d), c));
    lemma_put_away(c);
    let g = c.gathered().expired().marks_reset();
    lemma_jokers_shown(g);
    let k = g.jokers_shown();
    lemma_jokers_cleared(k, 0, k.jokers.len(), d);
    let e = k.jokers_cleared(0, k.jokers.len(), d);
    assert(leaves(e, m.won_round(d))) by {
        reveal(RunModel::won_round);
    }
}

broadcast proof fn lemma_ended(m: RunModel, d: spec_fn(RunModel) -> RunModel)
    requires
        frugal(d),
    ensures
        balances(m, #[trigger] m.ended(d)),
{
    reveal(RunModel::ended);
    let e0 = m.engine(seq![]);
    let (saved, e, s) = EngineHooks::at_round_end(e0, m.record.hands, m.round_lost(), m.s);
    lemma_ending(
        Ending { e: e0, saved: false, s: m.s },
        m.record.hands,
        m.round_lost(),
        0,
        m.jokers.len(),
    );
    let a = RunModel { s, ..m };
    assert(leaves(m, a));
    lemma_rejoined(a, e, d);
    let b = a.rejoined(e, d);
    lemma_won_round(b, d);
    assert(m.ended(d) == b.won_round(d) || leaves(b, m.ended(d)));
}

broadcast proof fn lemma_disabled(m: RunModel)
    ensures
        balances(m, #[trigger] m.disabled()),
{
    reveal(RunModel::disabled);
    lemma_hushing();
    assert(balances(m, round::hushing()(m)));
    lemma_ended(m.hushed(), round::hushing());
}

broadcast proof fn lemma_disabling(may_end: bool)
    ensures
        frugal(#[trigger] disabling(may_end)),
{
    lemma_hushing();
    if may_end {
        assert forall|m: RunModel| balances(m, #[trigger] disabling(true)(m)) by {
            lemma_disabled(m);
        }
    }
}

// ---- hands ---------------------------------------------------------------

proof fn lemma_drawn(m: RunModel, n: nat)
    ensures
        leaves(m, m.drawn(n)),
    decreases n,
{
    if n > 0 {
        lemma_drawn(m, (n - 1) as nat);
    }
}

proof fn lemma_heart_turned(m: RunModel)
    ensures
        balances(m, m.heart_turned()),
{
    let n = m.jokers.len();
    let ids = round::clear_ids(m.jokers, n < 2, n);
    lemma_disabling(true);
    lemma_jokers_cleared(m, 0, n, disabling(true));
    let c = m.jokers_cleared(0, n, disabling(true));
    if ids.len() > 0 {
        let id = making::picked(c.s, "crimson_heart"@, ids);
        let a = c.after("crimson_heart"@);
        assert(leaves(c, a));
        if let Some(i) = making::found(making::joker_ids(a.jokers), id) {
            lemma_joker_debuffed(a, i, true, disabling(true));
        }
    }
}

broadcast proof fn lemma_hand_drawn(m: RunModel)
    ensures
        balances(m, #[trigger] m.hand_drawn()),
{
    reveal(RunModel::hand_drawn);
    lemma_drawn(m, m.draw_count());
    let d = m.drawn(m.draw_count());
    let o = RunModel { hand: making::in_order(d.hand), ..d };
    assert(leaves(m, o));
    let e = o.engine(seq![]);
    lemma_first_hand(e, 0, e.jokers.len());
    lemma_disabling(true);
    lemma_rejoined(o, EngineHooks::at_first_hand(e), disabling(true));
    let f = o.first_hand_seen();
    assert(balances(m, f));
    let b = f.bell_rung();
    assert(leaves(f, b.unprepped()));
    lemma_heart_turned(b.unprepped());
}

proof fn lemma_with_tarots(m: RunModel, n: nat)
    ensures
        balances(m, m.with_tarots(n)),
    decreases n,
{
    broadcast use {lemma_consumable_drawn, lemma_with_consumable};

    if n > 0 {
        lemma_with_tarots(m, (n - 1) as nat);
        let a = m.with_tarots((n - 1) as nat);
        let b = m.with_tarots(n);
        assert(balances(a, b));
    }
}

proof fn lemma_tossed(t: play::Tossing, cards: Seq<Card>, room: nat, n: nat)
    ensures
        works(t.e, play::tossed(t, cards, room, n).e),
    decreases n,
{
    if n > 0 {
        lemma_tossed(t, cards, room, (n - 1) as nat);
        let u = play::tossed(t, cards, room, (n - 1) as nat);
        lemma_discarding(
            Discarding { e: u.e, removed: false, dollars: u.dollars },
            cards[n - 1],
            cards,
            owns(u.e.jokers, JokerId::Pareidolia),
            owns(u.e.jokers, JokerId::Smeared),
            0,
            u.e.jokers.len(),
        );
    }
}

broadcast proof fn lemma_discarded(m: RunModel, cards: Seq<Card>, hook: bool)
    ensures
        balances(m, #[trigger] m.discarded(cards, hook)),
{
    reveal(RunModel::discarded);
    let (e, hands) = EngineHooks::at_pre_discard(
        m.engine(seq![]),
        cards,
        hook,
        m.record.hands,
        m.mods(),
    );
    let start = play::Tossing {
        e,
        dollars: m.purse.dollars,
        s: m.s,
        tarots: 0,
        gone: seq![],
        pile: m.discard_pile,
    };
    lemma_tossed(start, cards, m.consumable_room(), cards.len());
    let t = play::tossed(start, cards, m.consumable_room(), cards.len());
    lemma_destroyed_from(
        t.e,
        t.gone,
        owns(t.e.jokers, JokerId::Pareidolia),
        0,
        t.e.jokers.len(),
    );
    let e2 = if t.gone.len() > 0 {
        EngineHooks::at_destroyed(t.e, t.gone)
    } else {
        t.e
    };
    let laid = RunModel {
        s: t.s,
        record: Record { hands, ..m.record },
        purse: Purse { dollars: t.dollars, ..m.purse },
        destroyed_cards: m.destroyed_cards + t.gone,
        discard_pile: t.pile,
        ..m
    };
    assert(leaves(m, laid));
    lemma_disabling(true);
    lemma_rejoined(laid, e2, disabling(true));
    let back = laid.rejoined(e2, disabling(true));
    assert(balances(m, back));
    lemma_with_tarots(back, t.tarots);
}

proof fn lemma_pressed(m: RunModel, count: nat)
    ensures
        balances(m, m.pressed(count)),
{
    reveal(RunModel::pressed);
    if let Some(b) = m.round.active_blind {
        let t = m.with_blind(ActiveBlind { triggered: true, ..b });
        assert(leaves(m, t));
        let h = play::hooked(
            play::Hooking { ids: making::card_ids(t.hand), took: seq![], s: t.s },
            t.hand.len(),
            2,
        );
        let a = RunModel { s: h.s, ..t };
        let sel = play::places_of(a.hand, h.took, a.hand.len());
        let l = RunModel { hand: play::left(a.hand, sel, a.hand.len()), ..a };
        assert(leaves(m, a));
        assert(leaves(m, l));
        lemma_discarded(l, play::taken(a.hand, sel), true);
        if !b.disabled && b.named("The Hook"@) {
            assert(m.pressed(count) == a || m.pressed(count) == l.discarded(
                play::taken(a.hand, sel),
                true,
            ));
        } else {
            assert(leaves(m, m.pressed(count)));
        }
    }
}

proof fn lemma_hand_played(m: RunModel, sel: Seq<usize>)
    requires
        sel.len() <= usize::MAX,
    ensures
        balances(m, m.hand_played(sel)),
{
    reveal(RunModel::hand_played);
    reveal(RunModel::laid);
    let cards = play::laid_down(play::taken(m.hand, sel));
    let l = m.laid(sel);
    let x = RunModel {
        round: Round {
            forced_card: None,
            hands_left: m.round.hands_left.wrapping_sub(1),
            ..m.round
        },
        hand: play::left(m.hand, sel, m.hand.len()),
        ..m
    };
    assert(leaves(m, x));
    lemma_pressed(x, sel.len());
    assert(balances(m, l));
    let p = l.scored(cards);
    assert(same_row(l.jokers, p.end.hooks.jokers)) by {
        reveal(RunModel::scored);
        lemma_played(l.score_context(), cards, l.hand, l.engine(cards), l.s);
    }
    lemma_disabling(true);
    let held = RunModel {
        s: p.end.s,
        hand: p.end.held,
        record: Record { hands: p.end.ctx.hands, ..l.record },
        purse: Purse { dollars: p.end.ctx.dollars, ..l.purse },
        round: Round { active_blind: p.end.ctx.blind, ..l.round },
        ..l
    };
    assert(leaves(l, held));
    lemma_rejoined(held, p.end.hooks, disabling(true));
    let a = l.after_score(p);
    assert(balances(l, a));
    let c = a.cleared(p, l.purse.dollars);
    assert(leaves(a, c));
    assert(balances(m, c));
    lemma_ended(c, disabling(true));
    lemma_hand_drawn(c);
}

/// Playing and discarding keep the count of what is in use.
pub proof fn law_playing_keeps_the_count(m: RunModel, indices: Seq<usize>)
    requires
        m.accounted(),
    ensures
        m.play(indices).run.accounted(),
        m.discard(indices).run.accounted(),
{
    reveal(RunModel::play);
    reveal(RunModel::discard);
    if m.state == State::SelectingHand {
        if let Ok(sel) = m.chosen(indices) {
            lemma_chosen(m, indices, sel);
            lemma_hand_played(m, sel);
            let cards = play::taken(m.hand, sel);
            let l = RunModel {
                round: Round { forced_card: None, ..m.round },
                hand: play::left(m.hand, sel, m.hand.len()),
                ..m
            };
            assert(leaves(m, l));
            lemma_discarded(l, cards, false);
            let c = l.discarded(cards, false);
            let d = RunModel {
                round: Round {
                    discards_left: c.round.discards_left.wrapping_sub(1),
                    discards_used: c.round.discards_used.wrapping_add(1),
                    ..c.round
                },
                ..c
            };
            assert(leaves(c, d));
            lemma_hand_drawn(d);
        }
    }
    lemma_settles_itself(m);
    lemma_accounted(m, m.play(indices).run);
    lemma_accounted(m, m.discard(indices).run);
}

// ---- tags and packs ------------------------------------------------------

proof fn lemma_topped_up(m: RunModel)
    ensures
        balances(m, m.topped_up()),
{
    if m.jokers.len() < m.limits.joker_slots {
        let (j, a) = m.joker_made(Some(Double::of(0)), false, "top", JokerArea::Direct);
        lemma_joker_made(m, Some(Double::of(0)), false, "top", JokerArea::Direct);
        lemma_disabling(true);
        lemma_with_joker(a, j, disabling(true));
    } else {
        assert(leaves(m, m.topped_up()));
    }
}

/// Whether what is on offer in two shops has the same keys.
spec fn same_offers(a: ShopModel, b: ShopModel) -> bool {
    item_keys(b.jokers) == item_keys(a.jokers) && voucher_keys(b.vouchers) == voucher_keys(
        a.vouchers,
    )
}

/// A shop that offers the same keys.
proof fn lemma_same_offers(m: RunModel, b: RunModel)
    requires
        m.shop is Some,
        b.shop is Some,
        same_offers(m.shop->0, b.shop->0),
        leaves(m, RunModel { shop: m.shop, ..b }),
    ensures
        balances(m, b),
{
    reveal(settles);
    assert forall|k: Seq<char>| (#[trigger] b.spare(k)) == m.spare(k) by {
        reveal(above);
    }
}

proof fn lemma_couponed(m: RunModel)
    ensures
        balances(m, m.couponed()),
{
    if let Some(shop) = m.shop {
        let b = m.couponed();
        assert(item_keys(b.shop->0.jokers) =~= item_keys(shop.jokers));
        lemma_same_offers(m, b);
    } else {
        assert(leaves(m, m.couponed()));
    }
}

proof fn lemma_voucher_laid(m: RunModel, key: Key, shop_voucher: bool)
    requires
        m.shop is Some,
    ensures
        balances(m, m.voucher_laid(key, shop_voucher)),
{
    lemma_using(m, key@);
    let a = m.numbered().using(key@);
    let b = m.voucher_laid(key, shop_voucher);
    let shop = m.shop->0;
    let offer = VoucherOffer { key, sort_id: m.next_id(), shop_voucher };
    assert(b.shop->0.vouchers == shop.vouchers.push(offer));
    assert(voucher_keys(b.shop->0.vouchers) =~= voucher_keys(shop.vouchers).push(Some(key@)));
    assert(spends(a, b, Some(key@))) by {
        reveal(spends);
        assert forall|k: Seq<char>|
            (#[trigger] b.spare(k)) == a.spare(k) - has_key(Some(key@), k) by {
            reveal(above);
            lemma_count_push(voucher_keys(shop.vouchers), Some(key@), k);
        }
    }
}

proof fn lemma_tag_applied(m: RunModel, tag: RunTag, ctx: TagContext)
    requires
        ctx == TagContext::VoucherAdd ==> m.shop is Some,
    ensures
        balances(m, m.tag_applied(tag, ctx).1),
{
    broadcast use {lemma_voucher_drawn, lemma_reroll_priced};

    reveal(RunModel::tag_applied);
    let k = tag.key@;
    let b = m.tag_applied(tag, ctx).1;
    if ctx == TagContext::Immediate && k == "tag_top_up"@ {
        lemma_topped_up(m);
        lemma_topped_up(m.topped_up());
    } else if ctx == TagContext::VoucherAdd && k == "tag_voucher"@ {
        let (key, a) = m.voucher_drawn(true);
        lemma_voucher_laid(a, key, false);
    } else if ctx == TagContext::ShopFinalPass {
        lemma_couponed(m);
        assert(b == m || b == m.couponed());
        assert(leaves(m, m));
    } else {
        assert(leaves(m, b));
    }
}

proof fn lemma_tags_stepped(m: RunModel, ctx: TagContext, i: nat, n: nat)
    requires
        ctx == TagContext::VoucherAdd ==> m.shop is Some,
    ensures
        balances(m, m.tags_stepped(ctx, i, n)),
    decreases n,
{
    if n > 0 && i < m.tags.len() {
        lemma_tag_applied(m, m.tags[i as int], ctx);
        let a = m.tag_applied(m.tags[i as int], ctx).1;
        let (b, j) = m.tag_step(ctx, i);
        assert(leaves(a, b));
        lemma_tags_stepped(b, ctx, j, (n - 1) as nat);
    } else {
        assert(leaves(m, m));
    }
}

proof fn lemma_tags_applied(m: RunModel, ctx: TagContext)
    requires
        ctx == TagContext::VoucherAdd ==> m.shop is Some,
    ensures
        balances(m, m.tags_applied(ctx)),
{
    reveal(RunModel::tags_applied);
    lemma_tags_stepped(m, ctx, 0, m.tags.len());
}

proof fn lemma_packed(m: RunModel, key: Key)
    ensures
        gains(m, m.packed(key).1, trade::pack_item_key(m.packed(key).0)),
{
    lemma_using(m, key@);
}

proof fn lemma_pack_consumable(m: RunModel, set: ConsumableSet, append: Key)
    ensures
        gains(
            m,
            m.pack_consumable(set, append).1,
            trade::pack_item_key(m.pack_consumable(set, append).0),
        ),
{
    let (key, a) = m.consumable_drawn(set, append, true);
    lemma_consumable_drawn(m, set, append, true);
    lemma_packed(a, key);
}

proof fn lemma_standard_card(m: RunModel)
    ensures
        gains(m, m.standard_card().1, trade::pack_item_key(m.standard_card().0)),
{
    reveal(RunModel::standard_card);
    let b = m.standard_card().1;
    assert(leaves(m, b));
    assert(gains(m, b, None)) by {
        reveal(settles);
        reveal(gains);
    }
}

proof fn lemma_pack_card(m: RunModel, kind: PackKind, i: nat)
    ensures
        gains(m, m.pack_card(kind, i).1, trade::pack_item_key(m.pack_card(kind, i).0)),
{
    reveal(RunModel::pack_card);
    match kind {
        PackKind::Arcana => {
            let a = m.after("omen_globe"@);
            assert(leaves(m, a));
            lemma_pack_consumable(a, ConsumableSet::Spectral, "ar2");
            lemma_pack_consumable(a, ConsumableSet::Tarot, "ar1");
            lemma_pack_consumable(m, ConsumableSet::Tarot, "ar1");
        },
        PackKind::Celestial => {
            lemma_pack_consumable(m, ConsumableSet::Planet, "pl1");
            if let Some(ht) = crate::packs::telescope(m.record.hands, 12).0 {
                lemma_packed(m, crate::consumables::planet_key(ht));
            }
        },
        PackKind::Spectral => {
            lemma_pack_consumable(m, ConsumableSet::Spectral, "spe");
        },
        PackKind::Buffoon => {
            lemma_joker_made(m, None, false, "buf", JokerArea::Pack);
        },
        PackKind::Standard => {
            lemma_standard_card(m);
        },
    }
}

proof fn lemma_pack_filled(m: RunModel, kind: PackKind, n: nat)
    ensures
        fills(m, m.pack_filled(kind, n).1, m.pack_filled(kind, n).0),
    decreases n,
{
    if n == 0 {
        lemma_fills_nothing(m);
    } else {
        lemma_pack_filled(m, kind, (n - 1) as nat);
        let (before, a) = m.pack_filled(kind, (n - 1) as nat);
        lemma_pack_card(a, kind, (n - 1) as nat);
        let (item, b) = a.pack_card(kind, (n - 1) as nat);
        lemma_fills_more(m, a, b, before, item);
    }
}

proof fn lemma_with_visions(m: RunModel, n: nat)
    ensures
        balances(m, m.with_visions(n)),
    decreases n,
{
    broadcast use {lemma_consumable_drawn, lemma_with_consumable};

    if n > 0 {
        lemma_with_visions(m, (n - 1) as nat);
        assert(balances(m.with_visions((n - 1) as nat), m.with_visions(n)));
    } else {
        assert(leaves(m, m));
    }
}

proof fn lemma_moved(m: RunModel, n: nat)
    ensures
        leaves(m, m.moved(n)),
    decreases n,
{
    if n > 0 {
        lemma_moved(m, (n - 1) as nat);
    }
}

/// A pack opens where none was open.
proof fn lemma_pack_opened(m: RunModel, key: Key, return_to: PackReturn)
    requires
        m.pack is None,
    ensures
        settles(m, m.pack_opened(key, return_to)),
        (m.pack_opened(key, return_to).shop is Some) == (m.shop is Some),
{
    reveal(RunModel::pack_opened);
    let b = m.pack_opened(key, return_to);
    if let Some(meta) = items::booster_named(key@) {
        lemma_pack_filled(m, meta.kind, meta.cards as nat);
        let (list, m1) = m.pack_filled(meta.kind, meta.cards as nat);
        let (visions, s) = m1.hallucinated(m1.jokers.len());
        let m2 = RunModel { s, ..m1 };
        assert(leaves(m1, m2));
        lemma_with_visions(m2, visions);
        let m3 = m2.with_visions(visions);
        let n = if m3.deck.len() < m3.hand_room() {
            m3.deck.len()
        } else {
            m3.hand_room()
        };
        lemma_moved(m3, n);
        assert(balances(m1, m3));
        assert(same_places(m, m1)) by {
            reveal(fills);
        }
        lemma_filled(m, m1, m3, b, list);
    } else {
        assert(leaves(m, b));
    }
}

proof fn lemma_choices_tagged(m: RunModel)
    requires
        m.pack is None,
    ensures
        settles(m, m.choices_tagged()),
    decreases m.tags.len(),
{
    match tags::choice_tag(m.tags, 0) {
        Some(i) => if i < m.tags.len() {
            let key = m.tags[i as int].key@;
            let a = RunModel { tags: m.tags.remove(i as int), ..m };
            assert(leaves(m, a));
            match tags::tag_pack(key) {
                Some(pack) => {
                    assert(leaves(a, a.numbered()));
                    lemma_pack_opened(a.numbered(), pack, PackReturn::BlindSelect);
                },
                None => {
                    let b = RunModel { track: Track { boss_rerolled: true, ..a.track }, ..a };
                    assert(leaves(a, b.boss_redrawn()));
                    lemma_choices_tagged(b.boss_redrawn());
                },
            }
        } else {
            assert(leaves(m, m));
        },
        None => {
            assert(leaves(m, m));
        },
    }
}

proof fn lemma_at_blind_select(m: RunModel)
    requires
        m.pack is None,
    ensures
        settles(m, m.at_blind_select()),
{
    reveal(RunModel::at_blind_select);
    let a = (RunModel { state: State::BlindSelect, ..m }).orbitals_drawn();
    assert(leaves(m, a));
    lemma_tags_applied(a, TagContext::Immediate);
    lemma_choices_tagged(a.tags_applied(TagContext::Immediate));
}

/// Skipping a blind and drawing the boss anew keep the count of what is in use.
pub proof fn law_skipping_keeps_the_count(m: RunModel)
    requires
        m.sound(),
        m.accounted(),
    ensures
        m.skip().run.accounted(),
        m.reroll_boss().run.accounted(),
{
    reveal(RunModel::skip);
    reveal(RunModel::reroll_boss);
    lemma_settles_itself(m);
    if m.state == State::BlindSelect {
        let small = m.track.blind_on_deck == BlindStage::Small;
        let key = if small {
            m.offers.blind_tag_small
        } else {
            m.offers.blind_tag_big
        };
        let hand = if key@ == "tag_orbital"@ {
            m.orbital(m.track.blind_on_deck)
        } else {
            None
        };
        let a = (RunModel {
            record: Record { skips: m.record.skips.wrapping_add(1), ..m.record },
            ..m
        }).with_tag(key, hand);
        let track = if small {
            Track { small_skipped: true, blind_on_deck: BlindStage::Big, ..a.track }
        } else {
            Track { big_skipped: true, blind_on_deck: BlindStage::Boss, ..a.track }
        };
        let b = RunModel { track, ..a };
        assert(leaves(m, b));
        lemma_tags_applied(b, TagContext::Immediate);
        lemma_choices_tagged(b.tags_applied(TagContext::Immediate));
        let r = (RunModel {
            track: Track { boss_rerolled: true, ..m.track },
            ..m
        }).charged(10).boss_redrawn();
        assert(leaves(m, r));
        lemma_choices_tagged(r);
    }
    lemma_accounted(m, m.skip().run);
    lemma_accounted(m, m.reroll_boss().run);
}

proof fn lemma_jokers_permuted(s: Seq<OwnedJoker>, t: Seq<OwnedJoker>, k: Seq<char>)
    requires
        s.to_multiset() == t.to_multiset(),
    ensures
        count(joker_keys(s), k) == count(joker_keys(t), k),
    decreases s.len(),
{
    broadcast use vstd::seq_lib::group_to_multiset_ensures;

    s.to_multiset_ensures();
    t.to_multiset_ensures();
    assert(s.len() == t.len());
    if s.len() == 0 {
        assert(s =~= t);
    } else {
        let j = s.last();
        assert(s.to_multiset().count(j) > 0) by {
            assert(s.contains(j)) by {
                assert(s[s.len() - 1] == j);
            }
        }
        assert(t.contains(j));
        let i = choose|i: int| 0 <= i < t.len() && t[i] == j;
        assert(s =~= s.drop_last().push(j));
        assert(s.drop_last().to_multiset() =~= s.to_multiset().remove(j));
        assert(t.remove(i).to_multiset() =~= t.to_multiset().remove(j));
        lemma_jokers_permuted(s.drop_last(), t.remove(i), k);
        lemma_joker_pushed(s.drop_last(), j, k);
        lemma_joker_removed(t, i, k);
    }
}

proof fn lemma_acorn_mixed(m: RunModel)
    ensures
        balances(m, m.acorn_mixed()),
{
    reveal(RunModel::acorn_mixed);
    let b = m.acorn_mixed();
    let jokers = m.jokers.map_values(|j: OwnedJoker| OwnedJoker { flipped: true, ..j });
    assert(joker_keys(jokers) =~= joker_keys(m.jokers));
    let t = order::sorted(jokers, course::joker_leq());
    if jokers.len() > 1 {
        order::lemma_sorted_permutes(jokers, course::joker_leq());
        let seed = m.s.after("aajk"@).after("aajk"@).drawn_seed("aajk"@);
        deck::lemma_exchanged_multiset(
            t,
            crate::rng::LuaRandom::from_seed(seed),
            (t.len() - 1) as nat,
        );
        reveal(settles);
        assert forall|k: Seq<char>| (#[trigger] b.spare(k)) == m.spare(k) by {
            lemma_jokers_permuted(b.jokers, jokers, k);
            reveal(above);
        }
    } else {
        lemma_same_keys(m, b);
    }
}

/// Taking on a blind keeps the count of what is in use.
pub proof fn law_selecting_keeps_the_count(m: RunModel, amount: Double)
    requires
        m.accounted(),
    ensures
        m.blind_selected(amount).run.accounted(),
{
    reveal(RunModel::blind_selected);
    lemma_settles_itself(m);
    if m.state == State::BlindSelect {
        let proto = m.next_blind();
        let r = m.round_begun(proto.is_boss);
        assert(leaves(m, r)) by {
            broadcast use lemma_reroll_priced;

            reveal(RunModel::round_begun);
        }
        let blind = ActiveBlind::fresh(proto, amount);
        let b = r.blind_set(blind);
        assert(balances(r, b)) by {
            reveal(RunModel::blind_set);
            reveal(RunModel::blind_taken);
            lemma_acorn_mixed(r);
            assert(leaves(r, b) || leaves(r.acorn_mixed(), b));
        }
        let e = b.engine(seq![]);
        lemma_setting(Setting { e, sliced: seq![], s: b.s }, 0, e.jokers.len());
        let (e1, s1) = EngineHooks::at_setting_blind(e, b.s);
        let b1 = RunModel { s: s1, ..b };
        assert(leaves(b, b1));
        lemma_disabling(true);
        lemma_rejoined(b1, e1, disabling(true));
        let s = b.blind_seen();
        assert(s == b1.rejoined(e1, disabling(true))) by {
            reveal(RunModel::blind_seen);
        }
        let d = s.deck_shuffled(s.at_ante("nr"));
        assert(leaves(s, d));
        lemma_tags_applied(d, TagContext::RoundStartBonus);
        let t = d.tags_applied(TagContext::RoundStartBonus);
        lemma_hand_drawn(t);
        assert(leaves(t.hand_drawn(), m.blind_selected(amount).run));
    }
    lemma_accounted(m, m.blind_selected(amount).run);
}

// ---- consumables ---------------------------------------------------------

proof fn lemma_target_effect(m: RunModel, key: Seq<char>, targets: Seq<usize>)
    ensures
        m.target_effect(key, targets) matches Some(b) ==> leaves(m, b),
{
    reveal(RunModel::target_effect);
}

proof fn lemma_many_created(m: RunModel, kind: CreateKind, n: nat)
    ensures
        leaves(m, m.many_created(kind, n)),
    decreases n,
{
    if n > 0 {
        lemma_many_created(m, kind, (n - 1) as nat);
    }
}

proof fn lemma_burned(m: RunModel, cards: Seq<Card>, n: nat)
    ensures
        leaves(m, m.burned(cards, n)),
    decreases n,
{
    if n > 0 {
        lemma_burned(m, cards, (n - 1) as nat);
    }
}

broadcast proof fn lemma_cards_added(m: RunModel, n: nat)
    ensures
        balances(m, #[trigger] m.cards_added(n)),
{
    assert(joker_keys(m.cards_added(n).jokers) =~= joker_keys(m.jokers));
    lemma_same_keys(m, m.cards_added(n));
}

proof fn lemma_exchanged(m: RunModel, kind: CreateKind, extra: nat)
    ensures
        balances(m, m.exchanged(kind, extra)),
{
    assert(leaves(m, m.one_destroyed()));
    lemma_many_created(m.one_destroyed(), kind, extra);
    lemma_cards_added(m.one_destroyed().many_created(kind, extra), extra);
}

proof fn lemma_immolated(m: RunModel)
    ensures
        leaves(m, m.immolated()),
{
    let cards = deck::shuffled(m.hand, m.s.drawn_seed("immolate"@));
    let n = if m.hand.len() < 5 {
        m.hand.len()
    } else {
        5
    };
    lemma_burned(m.after("immolate"@), cards, n);
}

proof fn lemma_hand_effect(m: RunModel, key: Seq<char>, targets: Seq<usize>)
    ensures
        m.hand_effect(key, targets) matches Some(b) ==> balances(m, b),
{
    reveal(RunModel::hand_effect);
    lemma_exchanged(m, CreateKind::Familiar, 3);
    lemma_exchanged(m, CreateKind::Grim, 2);
    lemma_exchanged(m, CreateKind::Incantation, 4);
    lemma_immolated(m);
    if let Some(b) = m.hand_effect(key, targets) {
        if key == "c_sigil"@ || key == "c_ouija"@ {
            assert(leaves(m, b));
        } else if key == "c_cryptid"@ {
            if targets.len() > 0 && targets[0] < m.hand.len() {
                let src = m.hand[targets[0] as int];
                let c = m.card_copied(src).card_copied(src);
                assert(leaves(m, c));
                lemma_cards_added(c, 2);
            } else {
                assert(leaves(m, b));
            }
        } else if key == "c_hanged_man"@ {
            assert(leaves(m, b));
        }
    }
}

proof fn lemma_supplied(m: RunModel, set: ConsumableSet, append: &'static str)
    ensures
        balances(m, m.supplied(set, append)),
{
    if m.consumables.len() < m.limits.consumable_slots {
        let (key, a) = m.consumable_drawn(set, append, false);
        lemma_consumable_drawn(m, set, append, false);
        lemma_with_consumable(a, key);
    } else {
        assert(leaves(m, m));
    }
}

proof fn lemma_wealth_effect(m: RunModel, key: Seq<char>)
    ensures
        m.wealth_effect(key) matches Some(b) ==> balances(m, b),
{
    broadcast use lemma_with_consumable;

    reveal(RunModel::wealth_effect);
    lemma_supplied(m, ConsumableSet::Tarot, "emp");
    lemma_supplied(m.supplied(ConsumableSet::Tarot, "emp"), ConsumableSet::Tarot, "emp");
    lemma_supplied(m, ConsumableSet::Planet, "pri");
    lemma_supplied(m.supplied(ConsumableSet::Planet, "pri"), ConsumableSet::Planet, "pri");
    if let Some(b) = m.wealth_effect(key) {
        if key == "c_hermit"@ || key == "c_temperance"@ {
            assert(leaves(m, b));
        } else {
            assert(leaves(m, m));
        }
    }
}

proof fn lemma_other_from(jokers: Seq<OwnedJoker>, id: u32, from: nat)
    ensures
        usage::other_from(jokers, id, from) matches Some(i) ==> i < jokers.len(),
    decreases jokers.len() - from,
{
    if from < jokers.len() {
        lemma_other_from(jokers, id, from + 1);
    }
}

proof fn lemma_others_removed(m: RunModel, id: u32, n: nat)
    ensures
        balances(m, m.others_removed(id, n)),
    decreases n,
{
    assert(leaves(m, m));
    if n > 0 {
        lemma_other_from(m.jokers, id, 0);
        if let Some(i) = usage::other_from(m.jokers, id, 0) {
            lemma_without_joker(m, i);
            lemma_others_removed(m.without_joker(i), id, (n - 1) as nat);
        }
    }
}

proof fn lemma_joker_joined(
    m: RunModel,
    rarity: Option<Double>,
    legendary: bool,
    append: &'static str,
)
    ensures
        balances(m, m.joker_joined(rarity, legendary, append)),
{
    let (j, b) = m.joker_made(rarity, legendary, append, JokerArea::Direct);
    lemma_joker_made(m, rarity, legendary, append, JokerArea::Direct);
    lemma_disabling(true);
    lemma_with_joker(b, j, disabling(true));
}

proof fn lemma_ankh_made(m: RunModel)
    ensures
        balances(m, m.ankh_made()),
{
    reveal(RunModel::ankh_made);
    let ids = making::joker_ids(m.jokers);
    let id = making::picked(m.s, "ankh_choice"@, ids);
    let a = m.after("ankh_choice"@);
    assert(leaves(m, a));
    if let Some(i) = making::found(ids, id) {
        let j = m.jokers[i as int];
        lemma_others_removed(a, id, m.jokers.len());
        let o = a.others_removed(id, m.jokers.len());
        let c = o.copy_drawn(j);
        assert(leaves(o, c));
        let copy = OwnedJoker { debuffed: false, flipped: false, ..usage::copied(j, c.next_id()) };
        lemma_using(c, j.id.row().key@);
        lemma_disabling(true);
        lemma_with_joker(c.numbered().using(j.id.row().key@), copy, disabling(true));
    }
}

broadcast proof fn lemma_with_edition(m: RunModel, id: u32, edition: Edition)
    ensures
        balances(m, #[trigger] m.with_edition(id, edition)),
{
    lemma_found_in(making::joker_ids(m.jokers), id, 0);
    assert(joker_keys(m.with_edition(id, edition).jokers) =~= joker_keys(m.jokers));
    lemma_same_keys(m, m.with_edition(id, edition));
}

/// The jokers with a number and those without it are the jokers.
proof fn lemma_sorted_out(jokers: Seq<OwnedJoker>, id: u32, n: nat, k: Seq<char>)
    requires
        n <= jokers.len(),
    ensures
        count(joker_keys(usage::numbered(jokers, id, true, n)), k) + count(
            joker_keys(usage::numbered(jokers, id, false, n)),
            k,
        ) == count(joker_keys(jokers.take(n as int)), k),
    decreases n,
{
    if n == 0 {
        assert(joker_keys(jokers.take(0)) =~= Seq::empty());
        assert(joker_keys(usage::numbered(jokers, id, true, n)) =~= Seq::empty());
        assert(joker_keys(usage::numbered(jokers, id, false, n)) =~= Seq::empty());
        lemma_count_none(k);
    } else {
        lemma_sorted_out(jokers, id, (n - 1) as nat, k);
        let j = jokers[n - 1];
        assert(jokers.take(n as int) =~= jokers.take(n - 1).push(j));
        lemma_joker_pushed(jokers.take(n - 1), j, k);
        lemma_joker_pushed(usage::numbered(jokers, id, true, (n - 1) as nat), j, k);
        lemma_joker_pushed(usage::numbered(jokers, id, false, (n - 1) as nat), j, k);
    }
}

proof fn lemma_forgotten(m: RunModel, gone: Seq<OwnedJoker>, n: nat)
    requires
        n <= gone.len(),
    ensures
        drops(m, m.forgotten(gone, n), joker_keys(gone.take(n as int))),
    decreases n,
{
    if n == 0 {
        assert(joker_keys(gone.take(0)) =~= Seq::empty());
        lemma_drops_nothing(m);
    } else {
        lemma_forgotten(m, gone, (n - 1) as nat);
        let a = m.forgotten(gone, (n - 1) as nat);
        let j = gone[n - 1];
        let b = if j.edition == Edition::Negative {
            a.with_joker_slots(a.limits.joker_slots.wrapping_sub(1))
        } else {
            a
        };
        assert(leaves(a, b));
        lemma_released(b, j.id.row().key@);
        assert(joker_keys(gone.take(n as int)) =~= joker_keys(gone.take(n - 1)).push(
            Some(j.id.row().key@),
        ));
        lemma_drops_more(
            m,
            a,
            b,
            m.forgotten(gone, n),
            joker_keys(gone.take(n - 1)),
            Some(j.id.row().key@),
        );
    }
}

proof fn lemma_hexed(m: RunModel)
    ensures
        balances(m, m.hexed()),
{
    reveal(RunModel::hexed);
    let id = m.plain_picked("hex"@);
    assert(leaves(m, m.after("hex"@)));
    let b = m.after("hex"@).with_edition(id, Edition::Polychrome);
    lemma_with_edition(m.after("hex"@), id, Edition::Polychrome);
    let n = b.jokers.len();
    let gone = usage::numbered(b.jokers, id, false, n);
    let x = RunModel { jokers: usage::numbered(b.jokers, id, true, n), ..b };
    lemma_forgotten(x, gone, gone.len());
    assert(gone.take(gone.len() as int) =~= gone);
    assert forall|k: Seq<char>|
        (#[trigger] x.spare(k)) == b.spare(k) + count(joker_keys(gone), k) by {
        reveal(above);
        assert(b.jokers.take(n as int) =~= b.jokers);
        lemma_sorted_out(b.jokers, id, n, k);
    }
    lemma_dropped(b, x, m.hexed(), joker_keys(gone));
}

proof fn lemma_joker_effect(m: RunModel, key: Seq<char>)
    ensures
        m.joker_effect(key) matches Some(b) ==> balances(m, b),
{
    broadcast use lemma_with_edition;

    reveal(RunModel::joker_effect);
    lemma_joker_joined(m, None, false, "jud");
    lemma_joker_joined(m, None, true, "sou");
    lemma_joker_joined(m, Some(Double::frac(99, 100)), false, "wra");
    lemma_ankh_made(m);
    lemma_hexed(m);
    assert(leaves(m, m));
    if let Some(b) = m.joker_effect(key) {
        if key == "c_judgement"@ || key == "c_soul"@ {
        } else if key == "c_wraith"@ {
            let a = m.joker_joined(Some(Double::frac(99, 100)), false, "wra");
            assert(leaves(a, b));
        } else if key == "c_ankh"@ {
        } else if key == "c_wheel_of_fortune"@ {
            reveal(RunModel::wheel_spun);
            let w = "wheel_of_fortune"@;
            let a = m.after(w);
            assert(leaves(m, a));
            assert(leaves(m, a.after(w).after(w)));
        } else if key == "c_ectoplasm"@ {
            reveal(RunModel::ectoplasm_used);
            let a = m.after("ectoplasm"@);
            assert(leaves(m, a));
            let e = a.with_edition(m.plain_picked("ectoplasm"@), Edition::Negative);
            assert(balances(a, e));
            assert(leaves(e, m.ectoplasm_used()));
        }
    }
}

/// What was counted and is used up is no longer counted.
proof fn lemma_used_up(m: RunModel, key: &'static str, targets: Seq<usize>)
    requires
        m.used_up(key, targets).refusal is None,
    ensures
        spends(m, m.used_up(key, targets).run, Some(key@)),
{
    reveal(RunModel::used);
    reveal(RunModel::level_effect);
    let c = m.use_counted(key@);
    lemma_target_effect(c, key@, targets);
    lemma_hand_effect(c, key@, targets);
    lemma_wealth_effect(c, key@);
    lemma_joker_effect(c, key@);
    assert(leaves(m, c));
    let b = c.effect(key@, targets)->0;
    assert(balances(c, b)) by {
        if c.target_effect(key@, targets) is None && c.hand_effect(key@, targets) is None
            && c.wealth_effect(key@) is None && c.joker_effect(key@) is None {
            assert(leaves(c, b));
        }
    }
    let r = b.use_remembered(key);
    assert(leaves(b, r));
    let glass = m.glass_hanged(key@, targets);
    let s = r.use_seen(key@, glass);
    assert(joker_keys(s.jokers) =~= joker_keys(r.jokers));
    lemma_same_keys(r, s);
    assert(balances(m, s));
    lemma_released(s, key@);
    lemma_settles_and_spends(m, s, s.released(key@), Some(key@));
}

proof fn lemma_without_consumable(m: RunModel, i: nat)
    requires
        i < m.consumables.len(),
    ensures
        gains(m, m.without_consumable(i), Some(m.consumables[i as int].key@)),
{
    let b = m.without_consumable(i);
    let key = m.consumables[i as int].key@;
    assert(consumable_keys(b.consumables) =~= consumable_keys(m.consumables).remove(i as int));
    reveal(gains);
    assert forall|k: Seq<char>| (#[trigger] b.spare(k)) == m.spare(k) + has_key(Some(key), k) by {
        reveal(above);
        lemma_count_remove(consumable_keys(m.consumables), i as int, k);
    }
}

/// Using a consumable keeps the count of what is in use.
pub proof fn law_using_keeps_the_count(m: RunModel, idx: usize, targets: Seq<usize>)
    requires
        m.accounted(),
    ensures
        m.consumable_used(idx, targets).run.accounted(),
{
    reveal(RunModel::consumable_used);
    lemma_settles_itself(m);
    if idx < m.consumables.len() {
        let key = m.consumables[idx as int].key;
        if m.unusable(key@, targets) is None {
            let c = m.without_consumable(idx as nat);
            lemma_without_consumable(m, idx as nat);
            law_usable_consumables_work(m, c, key, targets);
            lemma_used_up(c, key, targets);
        }
    }
    lemma_accounted(m, m.consumable_used(idx, targets).run);
}

// ---- the shop ------------------------------------------------------------

proof fn lemma_stall_consumable(m: RunModel, set: ConsumableSet)
    ensures
        gains(m, m.stall_consumable(set).1, trade::item_key(m.stall_consumable(set).0)),
{
    let (key, a) = m.consumable_drawn(set, "sho", false);
    lemma_consumable_drawn(m, set, "sho", false);
    lemma_using(a, key@);
}

proof fn lemma_stall(m: RunModel, place: nat, enhanced: bool)
    ensures
        gains(m, m.stall(place, enhanced).1, trade::item_key(m.stall(place, enhanced).0)),
{
    if place == 0 {
        lemma_joker_made(m, None, false, "sho", JokerArea::Shop);
    } else if place == 1 {
        lemma_stall_consumable(m, ConsumableSet::Tarot);
    } else if place == 2 {
        lemma_stall_consumable(m, ConsumableSet::Planet);
    } else if place == 4 {
        lemma_stall_consumable(m, ConsumableSet::Spectral);
    } else {
        reveal(RunModel::stall_card);
        let b = m.stall(place, enhanced).1;
        assert(leaves(m, b));
        lemma_gains_nothing(m, b);
    }
}

proof fn lemma_slot_rolled(m: RunModel)
    ensures
        gains(m, m.slot_rolled().1, trade::item_key(m.slot_rolled().0.kind)),
{
    reveal(RunModel::slot_rolled);
    let key = m.at_ante("cdt");
    let poll = m.s.unit(key).times(m.rates.total());
    let a = m.after(key);
    let illusion = m.redeemed("v_illusion");
    let enhanced = illusion && making::above(a.s.unit("illusion"@), 600);
    let b = if illusion {
        a.after("illusion"@)
    } else {
        a
    };
    assert(leaves(m, b));
    lemma_stall(b, m.rates.stretch(poll, 0, Double::of(0)), enhanced);
}

proof fn lemma_tag_finished(m: RunModel, item: ShopItem)
    ensures
        leaves(m, m.tag_finished(item).1),
        trade::item_key(m.tag_finished(item).0.kind) == trade::item_key(item.kind),
{
}

proof fn lemma_slot_filled(m: RunModel)
    ensures
        gains(m, m.slot_filled().1, trade::item_key(m.slot_filled().0.kind)),
{
    reveal(RunModel::slot_filled);
    match market::bringing_tag(m.tags, 0) {
        Some(i) => {
            let a = RunModel { tags: m.tags.remove(i as int), ..m };
            assert(leaves(m, a));
            let (j, b) = a.tag_brought(m.tags[i as int].key@);
            match j {
                Some(j) => {
                    lemma_joker_made(a, Some(Double::of(1)), false, "rta", JokerArea::Shop);
                    lemma_joker_made(a, Some(Double::frac(9, 10)), false, "uta", JokerArea::Shop);
                    lemma_tag_finished(
                        b,
                        ShopItem { kind: ShopItemKind::Joker(j), couponed: true },
                    );
                },
                None => {
                    assert(leaves(a, b));
                    lemma_slot_rolled(b);
                },
            }
        },
        None => {
            lemma_slot_rolled(m);
        },
    }
}

proof fn lemma_stocked(m: RunModel, n: nat)
    requires
        m.shop is Some,
    ensures
        balances(m, m.stocked(n)),
    decreases n,
{
    if n > 0 {
        lemma_stocked(m, (n - 1) as nat);
        let a = m.stocked((n - 1) as nat);
        lemma_slot_filled(a);
        let (item, b) = a.slot_filled();
        assert(same_places(a, b)) by {
            reveal(gains);
        }
        lemma_item_shown(b, item);
    } else {
        assert(leaves(m, m));
    }
}

proof fn lemma_items_finished(m: RunModel, items: Seq<ShopItem>, n: nat)
    requires
        n <= items.len(),
    ensures
        leaves(m, m.items_finished(items, n).1),
        item_keys(m.items_finished(items, n).0) == item_keys(items.take(n as int)),
    decreases n,
{
    if n == 0 {
        assert(item_keys(m.items_finished(items, n).0) =~= item_keys(items.take(0)));
    } else {
        lemma_items_finished(m, items, (n - 1) as nat);
        let (done, a) = m.items_finished(items, (n - 1) as nat);
        lemma_tag_finished(a, items[n - 1]);
        let item = a.tag_finished(items[n - 1]).0;
        assert(item_keys(done.push(item)) =~= item_keys(done).push(trade::item_key(item.kind)));
        assert(item_keys(items.take(n as int)) =~= item_keys(items.take(n - 1)).push(
            trade::item_key(items[n - 1].kind),
        ));
    }
}

proof fn lemma_shop_finished(m: RunModel)
    ensures
        balances(m, m.shop_finished()),
{
    if let Some(shop) = m.shop {
        lemma_items_finished(m, shop.jokers, shop.jokers.len());
        assert(shop.jokers.take(shop.jokers.len() as int) =~= shop.jokers);
        lemma_same_offers(m, m.shop_finished());
    } else {
        assert(leaves(m, m));
    }
}

proof fn lemma_pack_laid(m: RunModel)
    requires
        m.shop is Some,
    ensures
        balances(m, m.pack_laid()),
{
    lemma_same_offers(m, m.pack_laid());
}

/// A shop is laid out where none was.
proof fn lemma_shop_laid(m: RunModel)
    requires
        m.shop is None,
    ensures
        settles(m, m.shop_laid()),
{
    reveal(RunModel::shop_laid);
    lemma_tags_applied(m, TagContext::ShopStart);
    let t = m.tags_applied(TagContext::ShopStart);
    let e = RunModel { shop: Some(ShopModel::empty()), ..t };
    lemma_empty_shop(t, e);
    let n = e.limits.shop_joker_max as nat;
    lemma_stocked(e, n);
    lemma_shop_finished(e.stocked(n));
    let f = e.stocked(n).shop_finished();
    let v = f.voucher_shown();
    if let Some(key) = f.offers.current_voucher {
        lemma_voucher_laid(f, key, true);
    } else {
        assert(leaves(f, v));
    }
    lemma_pack_laid(v);
    lemma_pack_laid(v.pack_laid());
    let p = v.pack_laid().pack_laid();
    lemma_tags_applied(p, TagContext::VoucherAdd);
    let a = p.tags_applied(TagContext::VoucherAdd);
    lemma_tags_applied(a, TagContext::ShopFinalPass);
}

proof fn lemma_cashed_out(m: RunModel)
    requires
        m.sound(),
    ensures
        settles(m, m.cashed_out().run),
{
    reveal(RunModel::cashed_out);
    lemma_settles_itself(m);
    if m.state == State::RoundEval {
        let b = m.round.active_blind;
        let boss = b matches Some(b) && b.proto.is_boss;
        let d = m.deck_shuffled(m.at_ante("cashout")).paid_out().marked_defeated(b);
        let e = if boss {
            d.blinds_renewed()
        } else {
            d
        }.moved_on();
        assert(leaves(m, e)) by {
            broadcast use lemma_tag_drawn;

            reveal(RunModel::blinds_renewed);
        }
        let s = RunModel { state: State::Shop, ..e };
        assert(leaves(m, s));
        assert(leaves(m, RunModel { state: State::Won, ..e }));
        lemma_shop_laid(s);
    }
}

proof fn lemma_items_released(m: RunModel, list: Seq<ShopItem>, n: nat)
    requires
        n <= list.len(),
    ensures
        drops(m, m.items_released(list, n), item_keys(list.take(n as int))),
    decreases n,
{
    if n == 0 {
        assert(item_keys(list.take(0)) =~= Seq::empty());
        lemma_drops_nothing(m);
    } else {
        lemma_items_released(m, list, (n - 1) as nat);
        let a = m.items_released(list, (n - 1) as nat);
        let key = trade::item_key(list[n - 1].kind);
        lemma_released_if(a, key);
        assert(leaves(a, a));
        assert(item_keys(list.take(n as int)) =~= item_keys(list.take(n - 1)).push(key));
        lemma_drops_more(
            m,
            a,
            a,
            a.released_if(key),
            item_keys(list.take(n - 1)),
            key,
        );
    }
}

proof fn lemma_vouchers_released(m: RunModel, list: Seq<VoucherOffer>, n: nat)
    requires
        n <= list.len(),
    ensures
        drops(m, m.vouchers_released(list, n), voucher_keys(list.take(n as int))),
    decreases n,
{
    if n == 0 {
        assert(voucher_keys(list.take(0)) =~= Seq::empty());
        lemma_drops_nothing(m);
    } else {
        lemma_vouchers_released(m, list, (n - 1) as nat);
        let a = m.vouchers_released(list, (n - 1) as nat);
        let key = list[n - 1].key@;
        lemma_released(a, key);
        assert(leaves(a, a));
        assert(voucher_keys(list.take(n as int)) =~= voucher_keys(list.take(n - 1)).push(
            Some(key),
        ));
        lemma_drops_more(
            m,
            a,
            a,
            a.released(key),
            voucher_keys(list.take(n - 1)),
            Some(key),
        );
    }
}

proof fn lemma_pack_released(m: RunModel, list: Seq<PackItem>, n: nat)
    requires
        n <= list.len(),
    ensures
        drops(m, m.pack_released(list, n), pack_keys(list.take(n as int))),
    decreases n,
{
    if n == 0 {
        assert(pack_keys(list.take(0)) =~= Seq::empty());
        lemma_drops_nothing(m);
    } else {
        lemma_pack_released(m, list, (n - 1) as nat);
        let a = m.pack_released(list, (n - 1) as nat);
        let key = trade::pack_item_key(list[n - 1]);
        lemma_released_if(a, key);
        assert(leaves(a, a));
        assert(pack_keys(list.take(n as int)) =~= pack_keys(list.take(n - 1)).push(key));
        lemma_drops_more(
            m,
            a,
            a,
            a.released_if(key),
            pack_keys(list.take(n - 1)),
            key,
        );
    }
}

proof fn lemma_shop_emptied(m: RunModel)
    ensures
        balances(m, m.shop_emptied()),
{
    if let Some(shop) = m.shop {
        let a = RunModel { shop: Some(ShopModel { jokers: seq![], ..shop }), ..m };
        lemma_items_released(a, shop.jokers, shop.jokers.len());
        assert(shop.jokers.take(shop.jokers.len() as int) =~= shop.jokers);
        assert forall|k: Seq<char>|
            (#[trigger] a.spare(k)) == m.spare(k) + count(item_keys(shop.jokers), k) by {
            reveal(above);
            assert(item_keys(seq![]) =~= Seq::empty());
            lemma_count_none(k);
        }
        lemma_dropped(m, a, m.shop_emptied(), item_keys(shop.jokers));
    } else {
        assert(leaves(m, m));
    }
}

proof fn lemma_shop_rerolled(m: RunModel)
    requires
        m.sound(),
    ensures
        settles(m, m.shop_rerolled().run),
{
    reveal(RunModel::shop_rerolled);
    lemma_settles_itself(m);
    let p = m.reroll_paid();
    assert(leaves(m, p)) by {
        broadcast use lemma_reroll_priced;

    }
    let g = p.with_jokers(p.jokers.map_values(trade::flash_grown()));
    assert(joker_keys(g.jokers) =~= joker_keys(p.jokers));
    lemma_same_keys(p, g);
    lemma_shop_emptied(g);
    let e = g.shop_emptied();
    if m.shop is Some {
        lemma_stocked(e, e.limits.shop_joker_max as nat);
        lemma_shop_finished(e.stocked(e.limits.shop_joker_max as nat));
    }
}

proof fn lemma_perkeos_done(m: RunModel, n: nat)
    ensures
        balances(m, m.perkeos_done(n)),
    decreases n,
{
    assert(leaves(m, m));
    if n > 0 {
        lemma_perkeos_done(m, (n - 1) as nat);
        let a = m.perkeos_done((n - 1) as nat);
        let ids = making::consumable_ids(a.consumables);
        let id = making::picked(a.s, "perkeo"@, ids);
        let b = a.after("perkeo"@);
        assert(leaves(a, b));
        reveal(RunModel::perkeo_copied);
        if let Some(i) = making::found(ids, id) {
            let c = a.consumables[i as int];
            lemma_using(b, c.key@);
            lemma_consumable_kept(
                b.numbered().using(c.key@),
                a.perkeo_copied(),
                OwnedConsumable { sort_id: b.next_id(), negative: true, ..c },
            );
        }
        assert(balances(a, a.perkeo_copied()));
    }
}

proof fn lemma_shop_closed(m: RunModel)
    ensures
        settles(m, m.shop_closed()),
        (m.shop_closed().pack is Some) == (m.pack is Some),
{
    if let Some(shop) = m.shop {
        let a = RunModel { shop: None, ..m };
        let items = shop.jokers;
        let list = shop.vouchers;
        lemma_items_released(a, items, items.len());
        let b = a.items_released(items, items.len());
        lemma_vouchers_released(b, list, list.len());
        assert(items.take(items.len() as int) =~= items);
        assert(list.take(list.len() as int) =~= list);
        lemma_shop_gone(m, a, b, m.shop_closed());
    } else {
        lemma_settles_itself(m);
    }
}

/// Cashing out, rerolling and leaving the shop keep the count of what is in use.
pub proof fn law_shopping_keeps_the_count(m: RunModel)
    requires
        m.sound(),
        m.accounted(),
    ensures
        m.cashed_out().run.accounted(),
        m.shop_rerolled().run.accounted(),
        m.shop_left().run.accounted(),
{
    lemma_cashed_out(m);
    lemma_accounted(m, m.cashed_out().run);
    lemma_shop_rerolled(m);
    lemma_accounted(m, m.shop_rerolled().run);
    lemma_settles_itself(m);
    reveal(RunModel::shop_left);
    if m.state == State::Shop {
        lemma_perkeos_done(m, m.jokers.len());
        let p = m.perkeos_done(m.jokers.len());
        lemma_shop_closed(p);
        lemma_at_blind_select(p.shop_closed());
    }
    lemma_accounted(m, m.shop_left().run);
}

// ---- buying, selling and packs -------------------------------------------

proof fn lemma_card_gained(m: RunModel, card: Card)
    ensures
        balances(m, m.card_gained(card)),
{
    let a = m.one_more_card();
    let b = RunModel { deck: a.deck.insert(0, card), ..a };
    assert(leaves(m, b));
    lemma_cards_added(b, 1);
}

proof fn lemma_item_bought(m: RunModel, slot: usize, and_use: bool, targets: Seq<usize>)
    ensures
        settles(m, m.item_bought(slot, and_use, targets).run),
{
    reveal(RunModel::item_bought);
    lemma_settles_itself(m);
    if m.shop is Some && slot < m.shop->0.jokers.len() {
        let item = m.shop->0.jokers[slot as int];
        let cost = m.item_price(item);
        let a = m.without_item(slot as nat);
        lemma_item_taken(m, slot as nat);
        let b = a.item_gained(item.kind);
        match item.kind {
            ShopItemKind::Joker(j) => {
                lemma_disabling(true);
                lemma_with_joker(a, j, disabling(true));
            },
            ShopItemKind::Consumable(c) => {
                lemma_consumable_kept(a, b, c);
                if m.unusable(c.key@, targets) is None {
                    let x = a.charged(cost);
                    assert(leaves(a, x));
                    law_usable_consumables_work(m, x, c.key, targets);
                    lemma_used_up(x, c.key, targets);
                }
            },
            ShopItemKind::PlayingCard(card) => {
                lemma_card_gained(a, card);
                lemma_gained_nothing(m, b);
            },
        }
        assert(balances(m, b));
        assert(leaves(b, b.charged(cost)));
    }
}

proof fn lemma_voucher_applied(m: RunModel, key: Seq<char>)
    ensures
        settles(m, m.voucher_applied(key)),
{
    reveal(RunModel::voucher_applied);
    if key == "v_overstock_norm"@ || key == "v_overstock_plus"@ {
        let a = RunModel {
            limits: Limits {
                shop_joker_max: m.limits.shop_joker_max.wrapping_add(1),
                ..m.limits
            },
            ..m
        };
        assert(leaves(m, a));
        if let Some(shop) = a.shop {
            let n = if a.limits.shop_joker_max > shop.jokers.len() {
                (a.limits.shop_joker_max - shop.jokers.len()) as nat
            } else {
                0
            };
            lemma_stocked(a, n);
            lemma_shop_finished(a.stocked(n));
        }
    } else {
        assert(leaves(m, m.voucher_applied(key)));
    }
}

proof fn lemma_voucher_redeemed(m: RunModel, slot: usize)
    ensures
        settles(m, m.voucher_redeemed(slot).run),
{
    reveal(RunModel::voucher_redeemed);
    lemma_settles_itself(m);
    if m.shop is Some && slot < m.shop->0.vouchers.len() {
        let shop = m.shop->0;
        let key = shop.vouchers[slot as int].key@;
        let a = RunModel {
            shop: Some(ShopModel { vouchers: shop.vouchers.remove(slot as int), ..shop }),
            offers: Offers { current_voucher: None, ..m.offers },
            ..m
        };
        lemma_voucher_taken(m, a, slot as nat);
        lemma_released(a, key);
        let b = a.released(key).charged(m.voucher_price(key));
        let c = RunModel { used_vouchers: b.used_vouchers.insert(key, ()), ..b };
        assert(leaves(a.released(key), c));
        lemma_voucher_applied(c, key);
    }
}

proof fn lemma_pack_bought(m: RunModel, slot: usize)
    requires
        m.sound(),
    ensures
        settles(m, m.pack_bought(slot).run),
{
    reveal(RunModel::pack_bought);
    lemma_settles_itself(m);
    if m.state == State::Shop && slot < m.shop->0.packs.len() {
        let shop = m.shop->0;
        let offer = shop.packs[slot as int];
        let cost = m.pack_price(offer);
        let packs = shop.packs.update(slot as int, PackOffer { used: true, ..offer });
        let a = RunModel { shop: Some(ShopModel { packs, ..shop }), ..m };
        lemma_same_offers(m, a);
        let b = if cost > 0 {
            a.charged(cost)
        } else {
            a
        };
        assert(leaves(a, b));
        lemma_pack_opened(b, offer.key, PackReturn::Shop);
    }
}

/// Buying and redeeming keep the count of what is in use.
pub proof fn law_buying_keeps_the_count(
    m: RunModel,
    slot: usize,
    and_use: bool,
    targets: Seq<usize>,
)
    requires
        m.sound(),
        m.accounted(),
    ensures
        m.item_bought(slot, and_use, targets).run.accounted(),
        m.voucher_redeemed(slot).run.accounted(),
        m.pack_bought(slot).run.accounted(),
{
    lemma_item_bought(m, slot, and_use, targets);
    lemma_accounted(m, m.item_bought(slot, and_use, targets).run);
    lemma_voucher_redeemed(m, slot);
    lemma_accounted(m, m.voucher_redeemed(slot).run);
    lemma_pack_bought(m, slot);
    lemma_accounted(m, m.pack_bought(slot).run);
}

proof fn lemma_parted(m: RunModel, idx: nat)
    ensures
        balances(m, m.parted(idx)),
{
    reveal(RunModel::parted);
    assert(leaves(m, m));
    lemma_disabled(m);
    assert(leaves(m, m.with_tag("tag_double", None)));
    if let Some((t, copied)) = crate::jokers::resolved(m.jokers, idx as usize) {
        let but = m.jokers[t as int].sort_id;
        reveal(RunModel::invisible_copied);
        let ids = trade::other_ids(m.jokers, but, m.jokers.len());
        let id = making::picked(m.s, "invisible"@, ids);
        let a = m.after("invisible"@);
        assert(leaves(m, a));
        if let Some(i) = making::found(making::joker_ids(m.jokers), id) {
            let j = m.jokers[i as int];
            let b = a.copy_drawn(j);
            assert(leaves(a, b));
            let k = usage::copied(j, b.next_id());
            let copy = if j.id == JokerId::Invisible {
                k.with_extra(Double::of(0))
            } else {
                k
            };
            lemma_using(b, j.id.row().key@);
            lemma_disabling(true);
            lemma_with_joker(b.numbered().using(j.id.row().key@), copy, disabling(true));
        }
    }
}

proof fn lemma_sale_seen(m: RunModel)
    ensures
        balances(m, m.sale_seen()),
{
    assert(joker_keys(m.sale_seen().jokers) =~= joker_keys(m.jokers));
    lemma_same_keys(m, m.sale_seen());
}

proof fn lemma_joker_gone(m: RunModel, id: u32)
    ensures
        balances(m, m.joker_gone(id)),
{
    reveal(RunModel::joker_gone);
    assert(leaves(m, m));
    lemma_found_in(making::joker_ids(m.jokers), id, 0);
    if let Some(i) = making::found(making::joker_ids(m.jokers), id) {
        lemma_without_joker(m, i);
        let a = m.without_joker(i);
        let b = a.paid(m.joker_worth(m.jokers[i as int]));
        assert(leaves(a, b));
        lemma_disabled(b);
        assert(leaves(b, b));
        lemma_sale_seen(b.leaf_withered());
    }
}

/// Selling keeps the count of what is in use.
pub proof fn law_selling_keeps_the_count(m: RunModel, idx: usize)
    requires
        m.accounted(),
    ensures
        m.joker_sold(idx).run.accounted(),
        m.consumable_sold(idx).run.accounted(),
{
    reveal(RunModel::joker_sold);
    reveal(RunModel::consumable_sold);
    lemma_settles_itself(m);
    if idx < m.jokers.len() {
        lemma_parted(m, idx as nat);
        lemma_joker_gone(m.parted(idx as nat), m.jokers[idx as int].sort_id);
    }
    lemma_accounted(m, m.joker_sold(idx).run);
    if idx < m.consumables.len() {
        let c = m.consumables[idx as int];
        lemma_without_consumable(m, idx as nat);
        let a = m.without_consumable(idx as nat);
        let b = a.paid(m.consumable_worth(c));
        assert(leaves(a, b));
        lemma_released(b, c.key@);
        lemma_sale_seen(b.released(c.key@));
    }
    lemma_accounted(m, m.consumable_sold(idx).run);
}

proof fn lemma_pack_finished(m: RunModel)
    ensures
        settles(m, m.pack_finished()),
{
    reveal(RunModel::pack_finished);
    lemma_settles_itself(m);
    if let Some(pack) = m.pack {
        let a = RunModel { pack: None, ..m };
        lemma_pack_released(a, pack.items, pack.items.len());
        assert(pack.items.take(pack.items.len() as int) =~= pack.items);
        let r = a.pack_released(pack.items, pack.items.len());
        lemma_pack_gone(m, a, r);
        let h = if pack.hand_dealt {
            r.hand_returned()
        } else {
            r
        };
        assert(leaves(r, RunModel { state: State::Shop, ..h }));
        assert(leaves(r, RunModel { state: State::BlindSelect, ..h }));
        lemma_choices_tagged(RunModel { state: State::BlindSelect, ..h });
    }
}

proof fn lemma_choice_made(m: RunModel)
    ensures
        settles(m, m.choice_made()),
{
    lemma_settles_itself(m);
    lemma_pack_finished(m);
    if let Some(pack) = m.pack {
        if pack.choices_left > 1 && pack.items.len() > 0 {
            lemma_same_pack(m, m.choice_made());
        }
    }
}

proof fn lemma_pack_picked(m: RunModel, idx: usize, targets: Seq<usize>)
    ensures
        settles(m, m.pack_picked(idx, targets).run),
{
    reveal(RunModel::pack_picked);
    lemma_settles_itself(m);
    if m.pack is Some && idx < m.pack->0.items.len() {
        let item = m.pack->0.items[idx as int];
        let a = m.without_pack_item(idx as nat);
        lemma_pack_item_taken(m, idx as nat);
        match item {
            PackItem::Joker(j) => {
                lemma_disabling(true);
                lemma_with_joker(a, j, disabling(true));
                lemma_choice_made(a.with_joker(j, disabling(true)));
            },
            PackItem::Consumable(c) => {
                if m.unusable(c.key@, targets) is None {
                    law_usable_consumables_work(m, a, c.key, targets);
                    lemma_used_up(a, c.key, targets);
                    lemma_choice_made(a.used_up(c.key, targets).run);
                }
            },
            PackItem::PlayingCard(card) => {
                lemma_card_gained(a, card);
                let b = a.card_gained(card);
                lemma_gained_nothing(m, b);
                lemma_choice_made(b);
            },
        }
    }
}

/// Taking cards out of packs and skipping packs keep the count of what is in
/// use.
pub proof fn law_packs_keep_the_count(m: RunModel, idx: usize, targets: Seq<usize>)
    requires
        m.accounted(),
    ensures
        m.pack_picked(idx, targets).run.accounted(),
        m.pack_skipped().run.accounted(),
{
    lemma_pack_picked(m, idx, targets);
    lemma_accounted(m, m.pack_picked(idx, targets).run);
    reveal(RunModel::pack_skipped);
    lemma_settles_itself(m);
    let g = m.with_jokers(m.jokers.map_values(trade::red_card_grown()));
    assert(joker_keys(g.jokers) =~= joker_keys(m.jokers));
    lemma_same_keys(m, g);
    lemma_pack_finished(g);
    lemma_accounted(m, m.pack_skipped().run);
}

/// Jokers and consumables that are given are counted.
pub proof fn law_gifts_are_counted(m: RunModel, id: JokerId, edition: Edition, key: Key)
    requires
        m.accounted(),
    ensures
        m.joker_granted(id, edition).accounted(),
        m.with_consumable(key).accounted(),
{
    lemma_with_consumable(m, key);
    lemma_accounted(m, m.with_consumable(key));
    lemma_using(m, id.row().key@);
    let a = m.numbered().using(id.row().key@);
    let (state, b) = a.first_state(id);
    lemma_first_state(a, id);
    lemma_disabling(true);
    lemma_with_joker(b, m.new_joker(id, edition, m.next_id(), state), disabling(true));
    lemma_accounted(m, m.joker_granted(id, edition));
}

/// A new run counts what is in use right.
pub proof fn law_runs_start_with_the_count(seed: Seq<char>)
    ensures
        course::started(seed).accounted(),
{
    broadcast use {lemma_voucher_drawn, lemma_tag_drawn, lemma_marks_reset};

    reveal(course::started);
    let o = course::opening(seed);
    let a = o.voucher_offered().blind_tags_drawn();
    assert(leaves(o, a));
    let d = RunModel {
        deck: deck::starting_deck(crate::config::Deck::Red, crate::rng::Streams::start(seed)),
        ..a
    };
    let b = d.deck_shuffled("shuffle"@).marks_reset();
    assert(leaves(o, b));
    assert(o.accounted()) by {
        assert forall|k: Seq<char>|
            (#[trigger] o.uses(k)) == o.things(k) && o.uses(k) <= o.counters.sort_id by {
            lemma_count_none(k);
            assert(joker_keys(o.jokers) =~= Seq::empty());
            assert(consumable_keys(o.consumables) =~= Seq::empty());
        }
    }
    lemma_at_blind_select(b);
    lemma_accounted(o, course::started(seed));
}

} // verus!
