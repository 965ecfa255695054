//! The numbers of cards: no two cards of a run share one.
use crate::actions;
use crate::blinds::ActiveBlind;
use crate::cards::{Card, Edition, Rank};
use crate::config;
use crate::course;
use crate::deck;
use crate::items::{ConsumableSet, JokerId, PackKind};
use crate::jokers::{EngineHooks, OutEvent, Outbox};
use crate::making;
use crate::market;
use crate::order;
use crate::play;
use crate::registry::Key;
use crate::round;
use crate::round::disabling;
use crate::run::{Counters, Purse, Record, Refusal, Round, RunModel, State, Track};
use crate::scoring;
use crate::scoring::JokerHooks;
use crate::shop::{
    JokerArea, OwnedJoker, PackItem, PackModel, PackReturn, RunTag, ShopItem, ShopItemKind,
    ShopModel, TagContext, VoucherOffer,
};
use crate::tags;
use crate::tarots;
use crate::tarots::CreateKind;
use crate::double::Double;
use crate::windows::{lemma_played, reached};
use vstd::prelude::*;

verus! {

// ---- counting ------------------------------------------------------------

/// One if a card has a number.
pub open spec fn has(c: Card, x: u32) -> nat {
    if c.sort_id == x {
        1
    } else {
        0
    }
}

/// How many of some cards have a number.
#[verifier::opaque]
pub open spec fn copies(cards: Seq<Card>, x: u32) -> nat
    decreases cards.len(),
{
    if cards.len() == 0 {
        0
    } else {
        copies(cards.drop_last(), x) + has(cards.last(), x)
    }
}

/// One if something in a shop is a card with a number.
pub open spec fn item_has(item: ShopItem, x: u32) -> nat {
    match item.kind {
        ShopItemKind::PlayingCard(c) => has(c, x),
        _ => 0,
    }
}

/// How many cards in the slots of a shop have a number.
#[verifier::opaque]
pub open spec fn shop_copies(items: Seq<ShopItem>, x: u32) -> nat
    decreases items.len(),
{
    if items.len() == 0 {
        0
    } else {
        shop_copies(items.drop_last(), x) + item_has(items.last(), x)
    }
}

/// One if something in a pack is a card with a number.
pub open spec fn pack_item_has(item: PackItem, x: u32) -> nat {
    match item {
        PackItem::PlayingCard(c) => has(c, x),
        _ => 0,
    }
}

/// How many cards in a pack have a number.
#[verifier::opaque]
pub open spec fn pack_copies(items: Seq<PackItem>, x: u32) -> nat
    decreases items.len(),
{
    if items.len() == 0 {
        0
    } else {
        pack_copies(items.drop_last(), x) + pack_item_has(items.last(), x)
    }
}

/// How many cards in a deck, in a hand, in a pile, in a shop and in a pack have
/// a number.
pub open spec fn tally(
    deck: Seq<Card>,
    hand: Seq<Card>,
    pile: Seq<Card>,
    shop: Option<ShopModel>,
    pack: Option<PackModel>,
    x: u32,
) -> nat {
    copies(deck, x) + copies(hand, x) + copies(pile, x) + match shop {
        Some(shop) => shop_copies(shop.jokers, x),
        None => 0,
    } + match pack {
        Some(pack) => pack_copies(pack.items, x),
        None => 0,
    }
}

impl RunModel {
    /// How many cards of a run have a number: in the deck, in hand, discarded,
    /// in the shop and in an open pack.
    #[verifier::inline]
    pub open spec fn bearing(self, x: u32) -> nat {
        tally(self.deck, self.hand, self.discard_pile, self.shop, self.pack, x)
    }

    /// No two cards of a run share a number, and no number was used that was
    /// not given out, as long as the numbers have not run out.
    pub open spec fn numbers_apart(self) -> bool {
        self.counters.sort_id < u32::MAX ==> forall|x: u32|
            (#[trigger] self.bearing(x)) <= 1 && (self.bearing(x) > 0 ==> x
                <= self.counters.sort_id)
    }
}

/// One if a number is given out between two counts.
pub open spec fn fresh(from: u32, x: u32, to: u32) -> nat {
    if from < x <= to {
        1
    } else {
        0
    }
}

/// No cards.
pub open spec fn nothing() -> spec_fn(u32) -> nat {
    |x: u32| 0nat
}

/// Whether a run with some cards beside it can have come out of another with
/// some beside it: every number is one that was there or a new one.
pub open spec fn passes(
    a: RunModel,
    beside_a: spec_fn(u32) -> nat,
    b: RunModel,
    beside_b: spec_fn(u32) -> nat,
) -> bool {
    &&& a.counters.sort_id <= b.counters.sort_id
    &&& b.counters.sort_id < u32::MAX ==> forall|x: u32|
        (#[trigger] b.bearing(x)) + beside_b(x) <= a.bearing(x) + beside_a(x) + fresh(
            a.counters.sort_id,
            x,
            b.counters.sort_id,
        )
}

/// The same, with no cards beside.
pub open spec fn mints(a: RunModel, b: RunModel) -> bool {
    &&& a.counters.sort_id <= b.counters.sort_id
    &&& b.counters.sort_id < u32::MAX ==> forall|x: u32|
        (#[trigger] b.bearing(x)) <= a.bearing(x) + fresh(
            a.counters.sort_id,
            x,
            b.counters.sort_id,
        )
}

/// Whether the cards of two runs are the same, and numbers may have been given
/// out between them.
pub open spec fn keeps_cards(a: RunModel, b: RunModel) -> bool {
    &&& a.counters.sort_id <= b.counters.sort_id
    &&& b.deck == a.deck
    &&& b.hand == a.hand
    &&& b.discard_pile == a.discard_pile
    &&& b.shop == a.shop
    &&& b.pack == a.pack
}

/// Whether a way to disable a blind makes no card.
pub open spec fn thrifty(d: spec_fn(RunModel) -> RunModel) -> bool {
    forall|m: RunModel| mints(m, #[trigger] d(m))
}

proof fn lemma_mints_on(a: RunModel, b: RunModel, c: RunModel)
    requires
        mints(a, b),
        mints(b, c),
    ensures
        mints(a, c),
{
}

pub proof fn lemma_copies_push(s: Seq<Card>, c: Card, x: u32)
    ensures
        copies(s.push(c), x) == copies(s, x) + has(c, x),
{
    reveal(copies);
    assert(s.push(c).drop_last() =~= s);
}

proof fn lemma_copies_add(s: Seq<Card>, t: Seq<Card>, x: u32)
    ensures
        copies(s + t, x) == copies(s, x) + copies(t, x),
    decreases t.len(),
{
    reveal(copies);
    if t.len() == 0 {
        assert(s + t =~= s);
    } else {
        lemma_copies_add(s, t.drop_last(), x);
        assert((s + t).drop_last() =~= s + t.drop_last());
    }
}

pub proof fn lemma_copies_none(x: u32)
    ensures
        copies(Seq::<Card>::empty(), x) == 0,
{
    reveal(copies);
}

proof fn lemma_copies_last(s: Seq<Card>, x: u32)
    requires
        s.len() > 0,
    ensures
        copies(s, x) == copies(s.drop_last(), x) + has(s.last(), x),
{
    reveal(copies);
}

proof fn lemma_copies_remove(s: Seq<Card>, i: int, x: u32)
    requires
        0 <= i < s.len(),
    ensures
        copies(s, x) == copies(s.remove(i), x) + has(s[i], x),
    decreases s.len(),
{
    reveal(copies);
    if i == s.len() - 1 {
        assert(s.remove(i) =~= s.drop_last());
    } else {
        lemma_copies_remove(s.drop_last(), i, x);
        assert(s.remove(i).drop_last() =~= s.drop_last().remove(i));
    }
}

/// Whether cards have the numbers of others, in order.
pub open spec fn same_numbers(s: Seq<Card>, t: Seq<Card>) -> bool {
    &&& s.len() == t.len()
    &&& forall|i: int| 0 <= i < s.len() ==> (#[trigger] s[i]).sort_id == t[i].sort_id
}

pub proof fn lemma_same_numbers(s: Seq<Card>, t: Seq<Card>, x: u32)
    requires
        same_numbers(s, t),
    ensures
        copies(s, x) == copies(t, x),
    decreases s.len(),
{
    reveal(copies);
    if s.len() > 0 {
        assert(same_numbers(s.drop_last(), t.drop_last())) by {
            assert forall|i: int| 0 <= i < s.len() - 1 implies (#[trigger] s.drop_last()[i]).sort_id
                == t.drop_last()[i].sort_id by {
                assert(s[i].sort_id == t[i].sort_id);
            }
        }
        lemma_same_numbers(s.drop_last(), t.drop_last(), x);
        assert(s[s.len() - 1].sort_id == t[s.len() - 1].sort_id);
    }
}

proof fn lemma_copies_permuted(s: Seq<Card>, t: Seq<Card>, x: u32)
    requires
        s.to_multiset() == t.to_multiset(),
    ensures
        copies(s, x) == copies(t, x),
    decreases s.len(),
{
    broadcast use vstd::seq_lib::group_to_multiset_ensures;

    reveal(copies);
    s.to_multiset_ensures();
    t.to_multiset_ensures();
    assert(s.len() == t.len());
    if s.len() > 0 {
        let c = s.last();
        assert(s.to_multiset().count(c) > 0) by {
            assert(s.contains(c)) by {
                assert(s[s.len() - 1] == c);
            }
        }
        assert(t.contains(c));
        let i = choose|i: int| 0 <= i < t.len() && t[i] == c;
        assert(s =~= s.drop_last().push(c));
        assert(s.drop_last().to_multiset() =~= s.to_multiset().remove(c));
        assert(t.remove(i).to_multiset() =~= t.to_multiset().remove(c));
        lemma_copies_permuted(s.drop_last(), t.remove(i), x);
        lemma_copies_remove(t, i, x);
    }
}

/// Cards in order, and shuffled cards, are the cards that they were.
proof fn lemma_moved_about(s: Seq<Card>, seed: Double, x: u32)
    ensures
        copies(making::in_order(s), x) == copies(s, x),
        copies(crate::deck::shuffled(s, seed), x) == copies(s, x),
{
    making::law_ordering_a_hand_keeps_its_cards(s);
    lemma_copies_permuted(making::in_order(s), s, x);
    crate::deck::law_shuffle_permutes(s, seed);
    lemma_copies_permuted(crate::deck::shuffled(s, seed), s, x);
}

// ---- draws ---------------------------------------------------------------

broadcast proof fn lemma_consumable_drawn(
    m: RunModel,
    set: ConsumableSet,
    append: Key,
    soulable: bool,
)
    ensures
        keeps_cards(m, (#[trigger] m.consumable_drawn(set, append, soulable)).1),
{
    reveal(RunModel::consumable_drawn);
}

broadcast proof fn lemma_first_state(m: RunModel, id: JokerId)
    ensures
        keeps_cards(m, (#[trigger] m.first_state(id)).1),
{
    reveal(RunModel::first_state);
}

broadcast proof fn lemma_joker_made(
    m: RunModel,
    rarity: Option<Double>,
    legendary: bool,
    append: Key,
    area: JokerArea,
)
    ensures
        keeps_cards(m, (#[trigger] m.joker_made(rarity, legendary, append, area)).1),
{
    reveal(RunModel::joker_made);
    reveal(RunModel::first_state);
}

broadcast proof fn lemma_voucher_drawn(m: RunModel, from_tag: bool)
    ensures
        keeps_cards(m, (#[trigger] m.voucher_drawn(from_tag)).1),
{
    reveal(RunModel::voucher_drawn);
}

broadcast proof fn lemma_tag_drawn(m: RunModel)
    ensures
        keeps_cards(m, (#[trigger] m.tag_drawn()).1),
{
    reveal(RunModel::tag_drawn);
}

broadcast proof fn lemma_reroll_priced(m: RunModel, skip: bool)
    ensures
        keeps_cards(m, #[trigger] m.reroll_priced(skip)),
{
    reveal(RunModel::reroll_priced);
}

broadcast proof fn lemma_marks_reset(m: RunModel)
    ensures
        keeps_cards(m, #[trigger] m.marks_reset()),
{
    reveal(RunModel::idol_reset);
    reveal(RunModel::mail_reset);
    reveal(RunModel::castle_reset);
    reveal(RunModel::ancient_reset);
}

broadcast group group_draws {
    lemma_consumable_drawn,
    lemma_first_state,
    lemma_joker_made,
    lemma_voucher_drawn,
    lemma_tag_drawn,
    lemma_reroll_priced,
    lemma_marks_reset,
}

// ---- jokers --------------------------------------------------------------

broadcast proof fn lemma_passives_off(m: RunModel, j: OwnedJoker)
    ensures
        keeps_cards(m, #[trigger] m.passives_off(j)),
{
    broadcast use group_draws;

    reveal(RunModel::passives_off);
    reveal(RunModel::with_free_rerolls);
}

broadcast proof fn lemma_without_joker(m: RunModel, i: nat)
    ensures
        keeps_cards(m, #[trigger] m.without_joker(i)),
{
    broadcast use lemma_passives_off;

    reveal(RunModel::without_joker);
}

broadcast proof fn lemma_passives_on(m: RunModel, j: OwnedJoker, d: spec_fn(RunModel) -> RunModel)
    requires
        thrifty(d),
    ensures
        mints(m, #[trigger] m.passives_on(j, d)),
{
    broadcast use group_draws;

    reveal(RunModel::passives_on);
    reveal(RunModel::with_free_rerolls);
}

broadcast proof fn lemma_with_joker(m: RunModel, j: OwnedJoker, d: spec_fn(RunModel) -> RunModel)
    requires
        thrifty(d),
    ensures
        mints(m, #[trigger] m.with_joker(j, d)),
{
    reveal(RunModel::with_joker);
    let slots = m.with_joker_slots(m.limits.joker_slots.wrapping_add(1));
    lemma_passives_on(m, j, d);
    lemma_passives_on(slots, j, d);
}

broadcast proof fn lemma_joker_debuffed(
    m: RunModel,
    i: nat,
    debuff: bool,
    d: spec_fn(RunModel) -> RunModel,
)
    requires
        thrifty(d),
    ensures
        mints(m, #[trigger] m.joker_debuffed(i, debuff, d)),
{
    broadcast use {lemma_passives_off, lemma_passives_on};

    reveal(RunModel::joker_debuffed);
}

broadcast proof fn lemma_jokers_cleared(
    m: RunModel,
    i: nat,
    n: nat,
    d: spec_fn(RunModel) -> RunModel,
)
    requires
        thrifty(d),
    ensures
        mints(m, #[trigger] m.jokers_cleared(i, n, d)),
    decreases n - i,
{
    reveal(RunModel::jokers_cleared);
    if i < n {
        lemma_joker_debuffed(m, i, false, d);
        lemma_jokers_cleared(m.joker_debuffed(i, false, d), i + 1, n, d);
    }
}

broadcast proof fn lemma_jokers_created(m: RunModel, count: nat, d: spec_fn(RunModel) -> RunModel)
    requires
        thrifty(d),
    ensures
        mints(m, #[trigger] m.jokers_created(count, d)),
    decreases count,
{
    broadcast use {lemma_joker_made, lemma_with_joker};

    reveal(RunModel::jokers_created);
    if count > 0 {
        lemma_jokers_created(m, (count - 1) as nat, d);
    }
}

proof fn lemma_marble_made(m: RunModel)
    ensures
        mints(m, m.marble_made()),
{
    reveal(RunModel::marble_made);
    let b = m.marble_made();
    assert forall|x: u32| b.counters.sort_id < u32::MAX implies (#[trigger] b.bearing(x))
        <= m.bearing(x) + fresh(m.counters.sort_id, x, b.counters.sort_id) by {
        let card = b.deck[0];
        assert(b.deck =~= seq![card] + m.deck);
        lemma_copies_add(seq![card], m.deck, x);
        lemma_copies_none(x);
        lemma_copies_push(Seq::empty(), card, x);
        assert(Seq::<Card>::empty().push(card) =~= seq![card]);
    }
}

proof fn lemma_certificate_made(m: RunModel)
    ensures
        mints(m, m.certificate_made()),
{
    reveal(RunModel::certificate_made);
    let b = m.certificate_made();
    let a = m.after("cert_fr"@).numbered().one_more_card();
    let card = Card {
        seal: making::polled_seal(a.s.unit("certsl"@)),
        ..m.new_card("cert_fr"@)
    };
    let stamped = match m.round.active_blind {
        Some(bl) => Card {
            debuff: bl.debuffs(card, m.owns(JokerId::Pareidolia), m.owns(JokerId::Smeared)),
            ..card
        },
        None => card,
    };
    assert(b.hand == making::in_order(m.hand.push(stamped)));
    assert forall|x: u32| b.counters.sort_id < u32::MAX implies (#[trigger] b.bearing(x))
        <= m.bearing(x) + fresh(m.counters.sort_id, x, b.counters.sort_id) by {
        lemma_moved_about(m.hand.push(stamped), Double::of(0), x);
        lemma_copies_push(m.hand, stamped, x);
    }
}

broadcast proof fn lemma_event_done(m: RunModel, e: OutEvent, d: spec_fn(RunModel) -> RunModel)
    requires
        thrifty(d),
    ensures
        mints(m, #[trigger] m.event_done(e, d)),
{
    broadcast use {lemma_consumable_drawn, lemma_without_joker, lemma_jokers_created};

    reveal(RunModel::event_done);
    reveal(RunModel::gifts_given);
    lemma_marble_made(m);
    lemma_certificate_made(m);
    assert(mints(m, d(m)));
}

broadcast proof fn lemma_events_done(
    m: RunModel,
    events: Seq<OutEvent>,
    i: nat,
    d: spec_fn(RunModel) -> RunModel,
)
    requires
        thrifty(d),
    ensures
        mints(m, #[trigger] m.events_done(events, i, d)),
    decreases events.len() - i,
{
    reveal(RunModel::events_done);
    if i < events.len() {
        lemma_event_done(m, events[i as int], d);
        lemma_events_done(m.event_done(events[i as int], d), events, i + 1, d);
    }
}

broadcast proof fn lemma_settled(m: RunModel, out: Outbox, d: spec_fn(RunModel) -> RunModel)
    requires
        thrifty(d),
    ensures
        mints(m, #[trigger] m.settled(out, d)),
{
    broadcast use lemma_events_done;

    reveal(RunModel::settled);
}

broadcast group group_jokers {
    lemma_passives_off,
    lemma_passives_on,
    lemma_with_joker,
    lemma_without_joker,
    lemma_joker_debuffed,
    lemma_jokers_cleared,
    lemma_jokers_created,
    lemma_settled,
}

// ---- the end of a round --------------------------------------------------

/// Cards changed one by one keep their numbers.
broadcast proof fn lemma_changed(s: Seq<Card>, x: u32)
    ensures
        #![trigger copies(round::faced_up(s), x)]
        #![trigger copies(round::undebuffed(s), x)]
        #![trigger copies(round::unplayed(s), x)]
        copies(round::faced_up(s), x) == copies(s, x),
        copies(round::undebuffed(s), x) == copies(s, x),
        copies(round::unplayed(s), x) == copies(s, x),
{
    lemma_same_numbers(round::faced_up(s), s, x);
    lemma_same_numbers(round::undebuffed(s), s, x);
    lemma_same_numbers(round::unplayed(s), s, x);
}

broadcast proof fn lemma_copies_joined(s: Seq<Card>, t: Seq<Card>, x: u32)
    ensures
        #[trigger] copies(s + t, x) == copies(s, x) + copies(t, x),
{
    lemma_copies_add(s, t, x);
}

proof fn lemma_quieted(m: RunModel, b: crate::blinds::ActiveBlind)
    ensures
        mints(m, m.quieted(b)),
{
    broadcast use lemma_changed;

    reveal(RunModel::quieted);
    let q = m.quieted(b);
    assert forall|x: u32| (#[trigger] q.bearing(x)) <= m.bearing(x) by {
        let h = round::faced_up(m.hand);
        if b.named("The Manacle"@) && m.deck.len() > 0 {
            lemma_copies_last(m.deck, x);
            lemma_copies_push(h, m.deck.last(), x);
            lemma_moved_about(h.push(m.deck.last()), Double::of(0), x);
        }
    }
}

proof fn lemma_hushing()
    ensures
        thrifty(round::hushing()),
        thrifty(disabling(false)),
{
    assert forall|m: RunModel| mints(m, #[trigger] round::hushing()(m)) by {
        match m.round.active_blind {
            Some(b) => {
                lemma_quieted(m, b);
            },
            None => {},
        }
    }
}

proof fn lemma_with_planets(m: RunModel, n: nat)
    ensures
        keeps_cards(m, m.with_planets(n)),
    decreases n,
{
    if m.record.last_hand_played is Some && n > 0 {
        lemma_with_planets(m, (n - 1) as nat);
    }
}

proof fn lemma_counted_out(m: RunModel, d: spec_fn(RunModel) -> RunModel)
    requires
        thrifty(d),
    ensures
        mints(m, m.counted_out(d)),
{
    broadcast use lemma_settled;

    reveal(RunModel::counted_out);
    let h = m.held_done();
    let (bonus, e) = EngineHooks::payouts(h.hooks);
    let m1 = (RunModel { s: h.s, purse: Purse { dollars: h.dollars, ..m.purse }, ..m }).rejoined(
        e,
        d,
    );
    lemma_with_planets(m1, h.planets);
}

proof fn lemma_gathered(m: RunModel)
    ensures
        mints(m, m.gathered()),
{
    broadcast use {lemma_changed, lemma_copies_joined};

    reveal(RunModel::gathered);
    reveal(RunModel::voucher_drawn);
    let g = m.gathered();
    assert forall|x: u32| (#[trigger] g.bearing(x)) <= m.bearing(x) by {
        lemma_copies_none(x);
    }
}

proof fn lemma_won_round(m: RunModel, d: spec_fn(RunModel) -> RunModel)
    requires
        thrifty(d),
    ensures
        mints(m, m.won_round(d)),
{
    reveal(RunModel::won_round);
    let r = m.recorded();
    lemma_counted_out(r, d);
    let manacle = m.round.active_blind matches Some(b) && b.named("The Manacle"@) && !b.disabled;
    let c = if manacle {
        r.counted_out(d).resized(1)
    } else {
        r.counted_out(d)
    };
    assert(mints(m, c));
    lemma_gathered(c);
    let g = c.gathered();
    assert(mints(m, g));
    assert(keeps_cards(g, g.expired())) by {
        reveal(RunModel::expired);
        reveal(RunModel::reroll_priced);
    }
    let e = g.expired();
    lemma_marks_reset(e);
    let k = e.marks_reset().jokers_shown();
    assert(keeps_cards(g, k));
    lemma_jokers_cleared(k, 0, k.jokers.len(), d);
}

broadcast proof fn lemma_ended(m: RunModel, d: spec_fn(RunModel) -> RunModel)
    requires
        thrifty(d),
    ensures
        mints(m, #[trigger] m.ended(d)),
{
    broadcast use lemma_settled;

    reveal(RunModel::ended);
    let (saved, e, s) = EngineHooks::at_round_end(
        m.engine(seq![]),
        m.record.hands,
        m.round_lost(),
        m.s,
    );
    let m1 = (RunModel { s, ..m }).rejoined(e, d);
    lemma_won_round(m1, d);
}

broadcast proof fn lemma_disabled(m: RunModel)
    ensures
        mints(m, #[trigger] m.disabled()),
{
    reveal(RunModel::disabled);
    lemma_hushing();
    assert(mints(m, round::hushing()(m)));
    lemma_ended(m.hushed(), round::hushing());
}

broadcast proof fn lemma_disabling(may_end: bool)
    ensures
        thrifty(#[trigger] disabling(may_end)),
{
    lemma_hushing();
    if may_end {
        assert forall|m: RunModel| mints(m, #[trigger] disabling(true)(m)) by {
            lemma_disabled(m);
        }
    }
}

// ---- hands ---------------------------------------------------------------

proof fn lemma_drawn(m: RunModel, n: nat)
    requires
        n <= m.deck.len(),
    ensures
        m.drawn(n).deck.len() == m.deck.len() - n,
        mints(m, m.drawn(n)),
    decreases n,
{
    if n > 0 {
        lemma_drawn(m, (n - 1) as nat);
        let a = m.drawn((n - 1) as nat);
        let b = a.one_drawn();
        let card = b.hand.last();
        assert(b.hand == a.hand.push(card));
        assert forall|x: u32| (#[trigger] b.bearing(x)) <= a.bearing(x) by {
            lemma_copies_last(a.deck, x);
            lemma_copies_push(a.hand, card, x);
        }
        assert(mints(a, b));
    }
}

broadcast proof fn lemma_hand_drawn(m: RunModel)
    ensures
        mints(m, #[trigger] m.hand_drawn()),
{
    broadcast use {group_jokers, lemma_disabling};

    reveal(RunModel::hand_drawn);
    lemma_drawn(m, m.draw_count());
    let d = m.drawn(m.draw_count());
    let o = RunModel { hand: making::in_order(d.hand), ..d };
    assert(mints(d, o)) by {
        assert forall|x: u32| (#[trigger] o.bearing(x)) <= d.bearing(x) by {
            lemma_moved_about(d.hand, Double::of(0), x);
        }
    }
    assert(mints(m, o));
    assert(mints(o, o.first_hand_seen()));
}

proof fn lemma_with_tarots(m: RunModel, n: nat)
    ensures
        keeps_cards(m, m.with_tarots(n)),
    decreases n,
{
    broadcast use lemma_consumable_drawn;

    if n > 0 {
        lemma_with_tarots(m, (n - 1) as nat);
    }
}

proof fn lemma_tossed(t: play::Tossing, cards: Seq<Card>, room: nat, n: nat, x: u32)
    requires
        n <= cards.len(),
    ensures
        copies(play::tossed(t, cards, room, n).pile, x) <= copies(t.pile, x) + copies(
            cards.take(n as int),
            x,
        ),
    decreases n,
{
    if n > 0 {
        lemma_tossed(t, cards, room, (n - 1) as nat, x);
        let u = play::tossed(t, cards, room, (n - 1) as nat);
        let c = cards[n - 1];
        assert(cards.take(n as int) =~= cards.take(n - 1).push(c));
        lemma_copies_push(cards.take(n - 1), c, x);
        lemma_copies_push(u.pile, Card { face_down: false, ..c }, x);
    }
}

/// Cards out of the hand go onto the pile.
proof fn lemma_discarded(m: RunModel, cards: Seq<Card>, hook: bool)
    ensures
        passes(m, |x: u32| copies(cards, x), m.discarded(cards, hook), nothing()),
{
    broadcast use {lemma_settled, lemma_disabling};

    reveal(RunModel::discarded);
    let (e, hands) = EngineHooks::at_pre_discard(
        m.engine(seq![]),
        cards,
        hook,
        m.record.hands,
        m.mods(),
    );
    let start = play::Tossing {
        e,
        dollars: m.purse.dollars,
        s: m.s,
        tarots: 0,
        gone: seq![],
        pile: m.discard_pile,
    };
    let t = play::tossed(start, cards, m.consumable_room(), cards.len());
    let e2 = if t.gone.len() > 0 {
        EngineHooks::at_destroyed(t.e, t.gone)
    } else {
        t.e
    };
    let laid = RunModel {
        s: t.s,
        record: Record { hands, ..m.record },
        purse: Purse { dollars: t.dollars, ..m.purse },
        destroyed_cards: m.destroyed_cards + t.gone,
        discard_pile: t.pile,
        ..m
    };
    let back = laid.rejoined(e2, round::disabling(true));
    assert(mints(laid, back));
    lemma_with_tarots(back, t.tarots);
    let b = m.discarded(cards, hook);
    assert(mints(laid, b));
    assert forall|x: u32| b.counters.sort_id < u32::MAX implies (#[trigger] b.bearing(x))
        + nothing()(x) <= m.bearing(x) + copies(cards, x) + fresh(
        m.counters.sort_id,
        x,
        b.counters.sort_id,
    ) by {
        assert(cards.take(cards.len() as int) =~= cards);
        lemma_tossed(start, cards, m.consumable_room(), cards.len(), x);
        assert(laid.bearing(x) <= m.bearing(x) + copies(cards, x));
    }
}

/// The cards left of a hand when one more place is taken out.
proof fn lemma_left_one(hand: Seq<Card>, sel: Seq<usize>, p: usize, n: nat, x: u32)
    requires
        !sel.contains(p),
        n <= hand.len() <= usize::MAX,
    ensures
        copies(play::left(hand, sel.push(p), n), x) + (if p < n {
            has(hand[p as int], x)
        } else {
            0
        }) == copies(play::left(hand, sel, n), x),
    decreases n,
{
    lemma_copies_none(x);
    if n > 0 {
        lemma_left_one(hand, sel, p, (n - 1) as nat, x);
        let q = (n - 1) as usize;
        assert(sel.push(p).contains(q) == (sel.contains(q) || q == p)) by {
            if sel.contains(q) {
                let i = choose|i: int| 0 <= i < sel.len() && sel[i] == q;
                assert(sel.push(p)[i] == q);
            }
            if q == p {
                assert(sel.push(p)[sel.len() as int] == q);
            }
        }
        lemma_copies_push(play::left(hand, sel, (n - 1) as nat), hand[n - 1], x);
        lemma_copies_push(play::left(hand, sel.push(p), (n - 1) as nat), hand[n - 1], x);
    }
}

proof fn lemma_left_all(hand: Seq<Card>, n: nat, x: u32)
    requires
        n <= hand.len(),
    ensures
        copies(play::left(hand, seq![], n), x) == copies(hand.take(n as int), x),
    decreases n,
{
    lemma_copies_none(x);
    if n == 0 {
        assert(hand.take(0) =~= seq![]);
    } else {
        lemma_left_all(hand, (n - 1) as nat, x);
        assert(hand.take(n as int) =~= hand.take(n - 1).push(hand[n - 1]));
        lemma_copies_push(hand.take(n - 1), hand[n - 1], x);
        lemma_copies_push(play::left(hand, seq![], (n - 1) as nat), hand[n - 1], x);
    }
}

/// The cards taken out of a hand and those left are the cards of the hand.
proof fn lemma_left_and_taken(hand: Seq<Card>, sel: Seq<usize>, x: u32)
    requires
        sel.no_duplicates(),
        forall|i: int| 0 <= i < sel.len() ==> #[trigger] sel[i] < hand.len(),
        hand.len() <= usize::MAX,
    ensures
        copies(play::left(hand, sel, hand.len()), x) + copies(play::taken(hand, sel), x) == copies(
            hand,
            x,
        ),
    decreases sel.len(),
{
    if sel.len() == 0 {
        assert(sel =~= seq![]);
        lemma_left_all(hand, hand.len(), x);
        assert(hand.take(hand.len() as int) =~= hand);
        assert(play::taken(hand, sel) =~= seq![]);
        lemma_copies_none(x);
    } else {
        let t = sel.drop_last();
        let p = sel.last();
        assert(t.push(p) =~= sel);
        assert(!t.contains(p));
        lemma_left_and_taken(hand, t, x);
        lemma_left_one(hand, t, p, hand.len(), x);
        assert(play::taken(hand, sel) =~= play::taken(hand, t).push(hand[p as int]));
        lemma_copies_push(play::taken(hand, t), hand[p as int], x);
    }
}

pub proof fn lemma_chosen(m: RunModel, indices: Seq<usize>, sel: Seq<usize>)
    requires
        m.chosen(indices) == Ok::<Seq<usize>, Refusal>(sel),
    ensures
        sel.no_duplicates(),
        sel.len() <= 5,
        forall|i: int| 0 <= i < sel.len() ==> #[trigger] sel[i] < m.hand.len(),
{
    order::lemma_sorted_permutes(indices, scoring::place_leq());
    order::lemma_sorted_ascending(indices, scoring::place_leq());
    indices.lemma_multiset_has_no_duplicates();
    sel.lemma_multiset_has_no_duplicates_conv();
    assert forall|i: int| 0 <= i < sel.len() implies #[trigger] sel[i] < m.hand.len() by {
        if i < sel.len() - 1 {
            assert(scoring::place_leq()(sel[i], sel[sel.len() - 1]));
        }
    }
}

proof fn lemma_places_of(cards: Seq<Card>, ids: Seq<u32>, n: nat)
    requires
        n <= cards.len() <= usize::MAX,
    ensures
        play::places_of(cards, ids, n).no_duplicates(),
        forall|i: int|
            0 <= i < play::places_of(cards, ids, n).len() ==> #[trigger] play::places_of(
                cards,
                ids,
                n,
            )[i] < n,
    decreases n,
{
    if n > 0 {
        lemma_places_of(cards, ids, (n - 1) as nat);
    }
}

proof fn lemma_hook_pulled(m: RunModel)
    requires
        m.hand.len() <= usize::MAX,
    ensures
        mints(m, m.hook_pulled()),
{
    let h = play::hooked(
        play::Hooking { ids: making::card_ids(m.hand), took: seq![], s: m.s },
        m.hand.len(),
        2,
    );
    let a = RunModel { s: h.s, ..m };
    if h.took.len() > 0 {
        let sel = play::places_of(a.hand, h.took, a.hand.len());
        let cards = play::taken(a.hand, sel);
        let l = RunModel { hand: play::left(a.hand, sel, a.hand.len()), ..a };
        lemma_places_of(a.hand, h.took, a.hand.len());
        lemma_discarded(l, cards, true);
        let b = m.hook_pulled();
        assert forall|x: u32| b.counters.sort_id < u32::MAX implies (#[trigger] b.bearing(x))
            <= m.bearing(x) + fresh(m.counters.sort_id, x, b.counters.sort_id) by {
            lemma_left_and_taken(a.hand, sel, x);
            let beside = |x: u32| copies(cards, x);
            assert(b.bearing(x) + nothing()(x) <= l.bearing(x) + beside(x) + fresh(
                l.counters.sort_id,
                x,
                b.counters.sort_id,
            ));
        }
    }
}

proof fn lemma_pressed(m: RunModel, count: nat)
    requires
        m.hand.len() <= usize::MAX,
    ensures
        mints(m, m.pressed(count)),
{
    reveal(RunModel::pressed);
    if let Some(b) = m.round.active_blind {
        lemma_hook_pulled(m.with_blind(ActiveBlind { triggered: true, ..b }));
    }
}

proof fn lemma_left_shorter(hand: Seq<Card>, sel: Seq<usize>, n: nat)
    ensures
        play::left(hand, sel, n).len() <= n,
    decreases n,
{
    if n > 0 {
        lemma_left_shorter(hand, sel, (n - 1) as nat);
    }
}

proof fn lemma_sifted(cards: Seq<Card>, gone: Seq<usize>, n: nat, x: u32)
    requires
        n <= cards.len(),
    ensures
        copies(play::sifted(cards, gone, false, n), x) <= copies(cards.take(n as int), x),
    decreases n,
{
    lemma_copies_none(x);
    if n > 0 {
        lemma_sifted(cards, gone, (n - 1) as nat, x);
        assert(cards.take(n as int) =~= cards.take(n - 1).push(cards[n - 1]));
        lemma_copies_push(cards.take(n - 1), cards[n - 1], x);
        lemma_copies_push(
            play::sifted(cards, gone, false, (n - 1) as nat),
            cards[n - 1],
            x,
        );
    }
}

/// Cards are laid down out of the hand.
proof fn lemma_laid(m: RunModel, sel: Seq<usize>)
    requires
        sel.no_duplicates(),
        forall|i: int| 0 <= i < sel.len() ==> #[trigger] sel[i] < m.hand.len(),
        m.hand.len() <= usize::MAX,
    ensures
        passes(
            m,
            nothing(),
            m.laid(sel),
            |x: u32| copies(play::laid_down(play::taken(m.hand, sel)), x),
        ),
{
    reveal(RunModel::laid);
    let l = RunModel {
        round: Round {
            forced_card: None,
            hands_left: m.round.hands_left.wrapping_sub(1),
            ..m.round
        },
        hand: play::left(m.hand, sel, m.hand.len()),
        ..m
    };
    lemma_left_shorter(m.hand, sel, m.hand.len());
    lemma_pressed(l, sel.len());
    let b = m.laid(sel);
    let taken = play::taken(m.hand, sel);
    let down = play::laid_down(taken);
    let beside = |x: u32| copies(down, x);
    assert forall|x: u32| b.counters.sort_id < u32::MAX implies (#[trigger] b.bearing(x)) + beside(
        x,
    ) <= m.bearing(x) + nothing()(x) + fresh(m.counters.sort_id, x, b.counters.sort_id) by {
        lemma_left_and_taken(m.hand, sel, x);
        lemma_same_numbers(down, taken, x);
        assert(b.bearing(x) <= l.bearing(x) + fresh(l.counters.sort_id, x, b.counters.sort_id));
    }
}

/// The cards laid down are scored and put away.
proof fn lemma_scored_and_cleared(l: RunModel, cards: Seq<Card>)
    requires
        cards.len() <= usize::MAX,
    ensures
        ({
            let p = l.scored(cards);
            passes(
                l,
                |x: u32| copies(cards, x),
                l.after_score(p).cleared(p, l.purse.dollars),
                nothing(),
            )
        }),
{
    reveal(RunModel::scored);
    reveal(RunModel::settled);
    let p = l.scored(cards);
    let e = l.engine(cards);
    lemma_played(l.score_context(), cards, l.hand, e, l.s);
    lemma_disabling(true);
    let d = round::disabling(true);
    let out = p.end.hooks.out;
    let held = RunModel {
        s: p.end.s,
        hand: p.end.held,
        record: Record { hands: p.end.ctx.hands, ..l.record },
        purse: Purse { dollars: p.end.ctx.dollars, ..l.purse },
        round: Round { active_blind: p.end.ctx.blind, ..l.round },
        jokers: p.end.hooks.jokers,
        counters: Counters {
            sort_id: l.counters.sort_id.saturating_add(out.sort_ids_used),
            playing_card: l.counters.playing_card.wrapping_add(out.playing_cards_delta),
        },
        ..l
    };
    let a = l.after_score(p);
    assert(a == held.events_done(out.events, 0, d));
    lemma_events_done(held, out.events, 0, d);
    assert(reached(e) == l.counters.sort_id) by {
        reveal(RunModel::env);
    }
    assert(reached(p.end.hooks) == held.counters.sort_id);
    let b = a.cleared(p, l.purse.dollars);
    let beside = |x: u32| copies(cards, x);
    assert forall|x: u32| b.counters.sort_id < u32::MAX implies (#[trigger] b.bearing(x))
        + nothing()(x) <= l.bearing(x) + beside(x) + fresh(
        l.counters.sort_id,
        x,
        b.counters.sort_id,
    ) by {
        let end = p.end.play;
        assert(end.take(end.len() as int) =~= end);
        lemma_sifted(end, p.destroyed, end.len(), x);
        lemma_same_numbers(end, cards, x);
        lemma_copies_add(
            a.discard_pile,
            play::sifted(end, p.destroyed, false, end.len()),
            x,
        );
        assert(copies(p.end.held, x) <= copies(l.hand, x) + fresh(
            reached(e),
            x,
            reached(p.end.hooks),
        ));
        assert(held.bearing(x) <= l.bearing(x) + fresh(
            l.counters.sort_id,
            x,
            held.counters.sort_id,
        ));
        assert(a.bearing(x) <= held.bearing(x) + fresh(
            held.counters.sort_id,
            x,
            a.counters.sort_id,
        ));
        assert(b.bearing(x) <= a.bearing(x) + copies(cards, x));
    }
}

proof fn lemma_hand_played(m: RunModel, sel: Seq<usize>)
    requires
        sel.no_duplicates(),
        sel.len() <= 5,
        forall|i: int| 0 <= i < sel.len() ==> #[trigger] sel[i] < m.hand.len(),
        m.hand.len() <= usize::MAX,
    ensures
        mints(m, m.hand_played(sel)),
{
    reveal(RunModel::hand_played);
    let cards = play::laid_down(play::taken(m.hand, sel));
    lemma_laid(m, sel);
    let l = m.laid(sel);
    lemma_scored_and_cleared(l, cards);
    let p = l.scored(cards);
    let c = l.after_score(p).cleared(p, l.purse.dollars);
    assert(mints(m, c)) by {
        let beside = |x: u32| copies(cards, x);
        assert forall|x: u32| c.counters.sort_id < u32::MAX implies (#[trigger] c.bearing(x))
            <= m.bearing(x) + fresh(m.counters.sort_id, x, c.counters.sort_id) by {
            assert(c.bearing(x) + nothing()(x) <= l.bearing(x) + beside(x) + fresh(
                l.counters.sort_id,
                x,
                c.counters.sort_id,
            ));
            assert(l.bearing(x) + beside(x) <= m.bearing(x) + nothing()(x) + fresh(
                m.counters.sort_id,
                x,
                l.counters.sort_id,
            ));
        }
    }
    lemma_disabling(true);
    lemma_ended(c, disabling(true));
    lemma_hand_drawn(c);
}

/// What comes out of a run whose numbers are apart has its numbers apart.
proof fn lemma_apart(a: RunModel, b: RunModel)
    requires
        mints(a, b),
        a.numbers_apart(),
    ensures
        b.numbers_apart(),
{
    if b.counters.sort_id < u32::MAX {
        assert forall|x: u32|
            (#[trigger] b.bearing(x)) <= 1 && (b.bearing(x) > 0 ==> x <= b.counters.sort_id) by {
            assert(b.bearing(x) <= a.bearing(x) + fresh(
                a.counters.sort_id,
                x,
                b.counters.sort_id,
            ));
            assert(a.bearing(x) <= 1);
        }
    }
}

/// Playing and discarding keep the numbers of cards apart.
pub proof fn law_playing_keeps_numbers_apart(m: RunModel, indices: Seq<usize>)
    requires
        m.numbers_apart(),
        m.hand.len() <= usize::MAX,
    ensures
        m.play(indices).run.numbers_apart(),
        m.discard(indices).run.numbers_apart(),
{
    reveal(RunModel::play);
    reveal(RunModel::discard);
    if m.state == State::SelectingHand {
        if let Ok(sel) = m.chosen(indices) {
            lemma_chosen(m, indices, sel);
            lemma_hand_played(m, sel);
            lemma_apart(m, m.play(indices).run);
            if m.round.discards_left > 0 {
                let cards = play::taken(m.hand, sel);
                let l = RunModel {
                    round: Round { forced_card: None, ..m.round },
                    hand: play::left(m.hand, sel, m.hand.len()),
                    ..m
                };
                lemma_discarded(l, cards, false);
                let c = l.discarded(cards, false);
                assert(mints(m, c)) by {
                    let beside = |x: u32| copies(cards, x);
                    assert forall|x: u32| c.counters.sort_id < u32::MAX implies (
                    #[trigger] c.bearing(x)) <= m.bearing(x) + fresh(
                        m.counters.sort_id,
                        x,
                        c.counters.sort_id,
                    ) by {
                        lemma_left_and_taken(m.hand, sel, x);
                        assert(c.bearing(x) + nothing()(x) <= l.bearing(x) + beside(x) + fresh(
                            l.counters.sort_id,
                            x,
                            c.counters.sort_id,
                        ));
                    }
                }
                let d = RunModel {
                    round: Round {
                        discards_left: c.round.discards_left.wrapping_sub(1),
                        discards_used: c.round.discards_used.wrapping_add(1),
                        ..c.round
                    },
                    ..c
                };
                lemma_hand_drawn(d);
                lemma_apart(m, m.discard(indices).run);
            }
        }
    }
}

// ---- tags and packs ------------------------------------------------------

proof fn lemma_shop_copies_push(s: Seq<ShopItem>, item: ShopItem, x: u32)
    ensures
        shop_copies(s.push(item), x) == shop_copies(s, x) + item_has(item, x),
{
    reveal(shop_copies);
    assert(s.push(item).drop_last() =~= s);
}

proof fn lemma_pack_copies_push(s: Seq<PackItem>, item: PackItem, x: u32)
    ensures
        pack_copies(s.push(item), x) == pack_copies(s, x) + pack_item_has(item, x),
{
    reveal(pack_copies);
    assert(s.push(item).drop_last() =~= s);
}

proof fn lemma_no_items(x: u32)
    ensures
        shop_copies(Seq::<ShopItem>::empty(), x) == 0,
        pack_copies(Seq::<PackItem>::empty(), x) == 0,
{
    reveal(shop_copies);
    reveal(pack_copies);
}

proof fn lemma_shop_copies_remove(s: Seq<ShopItem>, i: int, x: u32)
    requires
        0 <= i < s.len(),
    ensures
        shop_copies(s, x) == shop_copies(s.remove(i), x) + item_has(s[i], x),
    decreases s.len(),
{
    reveal(shop_copies);
    if i == s.len() - 1 {
        assert(s.remove(i) =~= s.drop_last());
    } else {
        lemma_shop_copies_remove(s.drop_last(), i, x);
        assert(s.remove(i).drop_last() =~= s.drop_last().remove(i));
    }
}

proof fn lemma_pack_copies_remove(s: Seq<PackItem>, i: int, x: u32)
    requires
        0 <= i < s.len(),
    ensures
        pack_copies(s, x) == pack_copies(s.remove(i), x) + pack_item_has(s[i], x),
    decreases s.len(),
{
    reveal(pack_copies);
    if i == s.len() - 1 {
        assert(s.remove(i) =~= s.drop_last());
    } else {
        lemma_pack_copies_remove(s.drop_last(), i, x);
        assert(s.remove(i).drop_last() =~= s.drop_last().remove(i));
    }
}

/// Whether shops have the same cards in their slots.
spec fn same_cards(s: Seq<ShopItem>, t: Seq<ShopItem>) -> bool {
    &&& s.len() == t.len()
    &&& forall|i: int, x: u32|
        0 <= i < s.len() ==> #[trigger] item_has(s[i], x) == item_has(t[i], x)
}

proof fn lemma_same_cards(s: Seq<ShopItem>, t: Seq<ShopItem>, x: u32)
    requires
        same_cards(s, t),
    ensures
        shop_copies(s, x) == shop_copies(t, x),
    decreases s.len(),
{
    reveal(shop_copies);
    if s.len() > 0 {
        assert(same_cards(s.drop_last(), t.drop_last())) by {
            assert forall|i: int, x: u32| 0 <= i < s.len() - 1 implies #[trigger] item_has(
                s.drop_last()[i],
                x,
            ) == item_has(t.drop_last()[i], x) by {
                assert(item_has(s[i], x) == item_has(t[i], x));
            }
        }
        lemma_same_cards(s.drop_last(), t.drop_last(), x);
        assert(item_has(s[s.len() - 1], x) == item_has(t[s.len() - 1], x));
    }
}

broadcast proof fn lemma_tag_applied(m: RunModel, tag: RunTag, ctx: TagContext)
    ensures
        mints(m, (#[trigger] m.tag_applied(tag, ctx)).1),
{
    broadcast use {group_draws, lemma_with_joker, lemma_disabling};

    reveal(RunModel::tag_applied);
    assert(mints(m, m.couponed())) by {
        if let Some(shop) = m.shop {
            let free = m.couponed().shop->0.jokers;
            assert forall|x: u32| (#[trigger] m.couponed().bearing(x)) <= m.bearing(x) by {
                lemma_same_cards(free, shop.jokers, x);
            }
        }
    }
    assert forall|a: RunModel, key: Key, b: bool| mints(a, #[trigger] a.voucher_laid(key, b)) by {}
    assert(mints(m, m.topped_up()));
    assert(mints(m.topped_up(), m.topped_up().topped_up()));
}

proof fn lemma_tags_stepped(m: RunModel, ctx: TagContext, i: nat, n: nat)
    ensures
        mints(m, m.tags_stepped(ctx, i, n)),
    decreases n,
{
    if n > 0 && i < m.tags.len() {
        lemma_tag_applied(m, m.tags[i as int], ctx);
        let (m1, j) = m.tag_step(ctx, i);
        assert(mints(m, m1));
        lemma_tags_stepped(m1, ctx, j, (n - 1) as nat);
    }
}

broadcast proof fn lemma_tags_applied(m: RunModel, ctx: TagContext)
    ensures
        mints(m, #[trigger] m.tags_applied(ctx)),
{
    reveal(RunModel::tags_applied);
    lemma_tags_stepped(m, ctx, 0, m.tags.len());
}

proof fn lemma_pack_card(m: RunModel, kind: PackKind, i: nat)
    ensures
        passes(
            m,
            nothing(),
            m.pack_card(kind, i).1,
            |x: u32| pack_item_has(m.pack_card(kind, i).0, x),
        ),
{
    broadcast use group_draws;

    reveal(RunModel::pack_card);
    reveal(RunModel::standard_card);
}

proof fn lemma_pack_filled(m: RunModel, kind: PackKind, n: nat)
    ensures
        passes(
            m,
            nothing(),
            m.pack_filled(kind, n).1,
            |x: u32| pack_copies(m.pack_filled(kind, n).0, x),
        ),
    decreases n,
{
    let (list, b) = m.pack_filled(kind, n);
    let beside = |x: u32| pack_copies(list, x);
    if n == 0 {
        assert forall|x: u32| (#[trigger] b.bearing(x)) + beside(x) <= m.bearing(x) by {
            lemma_no_items(x);
        }
    } else {
        lemma_pack_filled(m, kind, (n - 1) as nat);
        let (before, a) = m.pack_filled(kind, (n - 1) as nat);
        lemma_pack_card(a, kind, (n - 1) as nat);
        let item = a.pack_card(kind, (n - 1) as nat).0;
        let earlier = |x: u32| pack_copies(before, x);
        let one = |x: u32| pack_item_has(item, x);
        assert forall|x: u32| b.counters.sort_id < u32::MAX implies (#[trigger] b.bearing(x))
            + beside(x) <= m.bearing(x) + nothing()(x) + fresh(
            m.counters.sort_id,
            x,
            b.counters.sort_id,
        ) by {
            lemma_pack_copies_push(before, item, x);
            assert(b.bearing(x) + one(x) <= a.bearing(x) + nothing()(x) + fresh(
                a.counters.sort_id,
                x,
                b.counters.sort_id,
            ));
            assert(a.bearing(x) + earlier(x) <= m.bearing(x) + nothing()(x) + fresh(
                m.counters.sort_id,
                x,
                a.counters.sort_id,
            ));
        }
    }
}

proof fn lemma_with_visions(m: RunModel, n: nat)
    ensures
        keeps_cards(m, m.with_visions(n)),
    decreases n,
{
    broadcast use lemma_consumable_drawn;

    if n > 0 {
        lemma_with_visions(m, (n - 1) as nat);
    }
}

proof fn lemma_moved(m: RunModel, n: nat)
    requires
        n <= m.deck.len(),
    ensures
        m.moved(n).deck.len() == m.deck.len() - n,
        m.moved(n).counters == m.counters,
        m.moved(n).shop == m.shop,
        forall|x: u32|
            copies(m.moved(n).deck, x) + copies(m.moved(n).hand, x) == (#[trigger] copies(
                m.deck,
                x,
            )) + copies(m.hand, x),
        m.moved(n).discard_pile == m.discard_pile,
    decreases n,
{
    if n > 0 {
        lemma_moved(m, (n - 1) as nat);
        let a = m.moved((n - 1) as nat);
        assert forall|x: u32|
            copies(m.moved(n).deck, x) + copies(m.moved(n).hand, x) == (#[trigger] copies(
                m.deck,
                x,
            )) + copies(m.hand, x) by {
            lemma_copies_last(a.deck, x);
            lemma_copies_push(a.hand, a.deck.last(), x);
        }
    }
}

broadcast proof fn lemma_pack_opened(m: RunModel, key: Key, return_to: PackReturn)
    ensures
        mints(m, #[trigger] m.pack_opened(key, return_to)),
{
    reveal(RunModel::pack_opened);
    if let Some(meta) = crate::items::booster_named(key@) {
        lemma_pack_filled(m, meta.kind, meta.cards as nat);
        let (list, m1) = m.pack_filled(meta.kind, meta.cards as nat);
        let beside = |x: u32| pack_copies(list, x);
        let (visions, s) = m1.hallucinated(m1.jokers.len());
        let m2 = RunModel { s, ..m1 };
        lemma_with_visions(m2, visions);
        let m3 = m2.with_visions(visions);
        let n = if m3.deck.len() < m3.hand_room() {
            m3.deck.len()
        } else {
            m3.hand_room()
        };
        lemma_moved(m3, n);
        let b = m.pack_opened(key, return_to);
        assert forall|x: u32| b.counters.sort_id < u32::MAX implies (#[trigger] b.bearing(x))
            <= m.bearing(x) + fresh(m.counters.sort_id, x, b.counters.sort_id) by {
            lemma_moved_about(m3.moved(n).hand, Double::of(0), x);
            assert(copies(m3.deck, x) >= 0);
            assert(m1.bearing(x) + beside(x) <= m.bearing(x) + nothing()(x) + fresh(
                m.counters.sort_id,
                x,
                m1.counters.sort_id,
            ));
        }
    }
}

proof fn lemma_choices_tagged(m: RunModel)
    ensures
        mints(m, m.choices_tagged()),
    decreases m.tags.len(),
{
    if let Some(i) = tags::choice_tag(m.tags, 0) {
        if i < m.tags.len() {
            let key = m.tags[i as int].key@;
            let m1 = RunModel { tags: m.tags.remove(i as int), ..m };
            match tags::tag_pack(key) {
                Some(pack) => {
                    lemma_pack_opened(m1.numbered(), pack, PackReturn::BlindSelect);
                },
                None => {
                    let m2 = RunModel { track: Track { boss_rerolled: true, ..m1.track }, ..m1 };
                    lemma_choices_tagged(m2.boss_redrawn());
                },
            }
        }
    }
}

broadcast proof fn lemma_at_blind_select(m: RunModel)
    ensures
        mints(m, #[trigger] m.at_blind_select()),
{
    reveal(RunModel::at_blind_select);
    let m1 = (RunModel { state: State::BlindSelect, ..m }).orbitals_drawn();
    lemma_tags_applied(m1, TagContext::Immediate);
    lemma_choices_tagged(m1.tags_applied(TagContext::Immediate));
}

/// Skipping a blind and drawing the boss anew keep the numbers of cards apart.
pub proof fn law_skipping_keeps_numbers_apart(m: RunModel)
    requires
        m.numbers_apart(),
    ensures
        m.skip().run.numbers_apart(),
        m.reroll_boss().run.numbers_apart(),
{
    broadcast use lemma_tags_applied;

    reveal(RunModel::skip);
    reveal(RunModel::reroll_boss);
    assert forall|a: RunModel| mints(a, #[trigger] a.choices_tagged()) by {
        lemma_choices_tagged(a);
    }
    assert(mints(m, m.skip().run));
    lemma_apart(m, m.skip().run);
    lemma_apart(m, m.reroll_boss().run);
}

/// Taking on a blind keeps the numbers of cards apart.
pub proof fn law_selecting_keeps_numbers_apart(m: RunModel, amount: Double)
    requires
        m.numbers_apart(),
    ensures
        m.blind_selected(amount).run.numbers_apart(),
{
    reveal(RunModel::blind_selected);
    if m.state == State::BlindSelect {
        let proto = m.next_blind();
        let r = m.round_begun(proto.is_boss);
        assert(mints(m, r)) by {
            broadcast use {lemma_reroll_priced, lemma_changed};

            reveal(RunModel::round_begun);
        }
        let fresh_blind = ActiveBlind::fresh(proto, amount);
        let b = r.blind_set(fresh_blind);
        assert(mints(r, b)) by {
            reveal(RunModel::blind_set);
            reveal(RunModel::blind_taken);
            reveal(RunModel::acorn_mixed);
            assert forall|x: u32| (#[trigger] b.bearing(x)) <= r.bearing(x) by {
                lemma_same_numbers(b.deck, r.deck, x);
                lemma_same_numbers(b.hand, r.hand, x);
                lemma_same_numbers(b.discard_pile, r.discard_pile, x);
            }
        }
        let s = b.blind_seen();
        assert(mints(b, s)) by {
            broadcast use {lemma_settled, lemma_disabling};

            reveal(RunModel::blind_seen);
        }
        let d = s.deck_shuffled(s.at_ante("nr"));
        assert(mints(s, d)) by {
            assert forall|x: u32| (#[trigger] d.bearing(x)) <= s.bearing(x) by {
                lemma_moved_about(s.deck, s.s.drawn_seed(s.at_ante("nr")), x);
            }
        }
        let t = d.tags_applied(TagContext::RoundStartBonus);
        lemma_tags_applied(d, TagContext::RoundStartBonus);
        lemma_hand_drawn(t);
        lemma_mints_on(m, r, b);
        lemma_mints_on(m, b, s);
        lemma_mints_on(m, s, d);
        lemma_mints_on(m, d, t);
        lemma_mints_on(m, t, t.hand_drawn());
        assert(mints(m, m.blind_selected(amount).run));
    }
    lemma_apart(m, m.blind_selected(amount).run);
}

// ---- consumables ---------------------------------------------------------

/// Whether a change of cards leaves their numbers alone.
spec fn keeps_number(f: spec_fn(Card) -> Card) -> bool {
    forall|c: Card| (#[trigger] f(c)).sort_id == c.sort_id
}

proof fn lemma_places_changed(hand: Seq<Card>, places: Seq<usize>, f: spec_fn(Card) -> Card, n: nat)
    requires
        keeps_number(f),
    ensures
        same_numbers(tarots::changed(hand, places, f, n), hand),
    decreases n,
{
    if n > 0 {
        lemma_places_changed(hand, places, f, (n - 1) as nat);
    }
}

broadcast proof fn lemma_with_changed(m: RunModel, targets: Seq<usize>, f: spec_fn(Card) -> Card)
    requires
        keeps_number(f),
    ensures
        #![trigger m.with_changed(targets, f)]
        #![trigger m.first_changed(targets, f)]
        mints(m, m.with_changed(targets, f)),
        mints(m, m.first_changed(targets, f)),
{
    lemma_places_changed(m.hand, targets, f, targets.len());
    assert forall|x: u32|
        (#[trigger] m.with_changed(targets, f).bearing(x)) <= m.bearing(x) by {
        lemma_same_numbers(tarots::changed(m.hand, targets, f, targets.len()), m.hand, x);
    }
    assert forall|x: u32|
        (#[trigger] m.first_changed(targets, f).bearing(x)) <= m.bearing(x) by {
        if targets.len() > 0 {
            lemma_same_numbers(tarots::changed_at(m.hand, targets[0], f), m.hand, x);
        }
    }
}

proof fn lemma_target_effect(m: RunModel, key: Seq<char>, targets: Seq<usize>)
    ensures
        m.target_effect(key, targets) matches Some(b) ==> mints(m, b),
{
    broadcast use lemma_with_changed;

    reveal(RunModel::target_effect);
}

proof fn lemma_left_fewer(hand: Seq<Card>, sel: Seq<usize>, n: nat, x: u32)
    requires
        n <= hand.len(),
    ensures
        copies(play::left(hand, sel, n), x) <= copies(hand.take(n as int), x),
    decreases n,
{
    lemma_copies_none(x);
    if n > 0 {
        lemma_left_fewer(hand, sel, (n - 1) as nat, x);
        assert(hand.take(n as int) =~= hand.take(n - 1).push(hand[n - 1]));
        lemma_copies_push(hand.take(n - 1), hand[n - 1], x);
        lemma_copies_push(play::left(hand, sel, (n - 1) as nat), hand[n - 1], x);
    }
}

/// Whether a run is another with a card more in hand, numbered anew.
spec fn one_more_in_hand(a: RunModel, b: RunModel) -> bool {
    &&& b.hand.len() == a.hand.len() + 1
    &&& b.hand.drop_last() == a.hand
    &&& b.hand.last().sort_id == a.counters.sort_id.saturating_add(1)
    &&& b.counters.sort_id == a.counters.sort_id.saturating_add(1)
    &&& b.deck == a.deck
    &&& b.discard_pile == a.discard_pile
    &&& b.shop == a.shop
    &&& b.pack == a.pack
}

proof fn lemma_one_more_in_hand(a: RunModel, b: RunModel)
    requires
        one_more_in_hand(a, b),
    ensures
        mints(a, b),
{
    assert forall|x: u32| b.counters.sort_id < u32::MAX implies (#[trigger] b.bearing(x))
        <= a.bearing(x) + fresh(a.counters.sort_id, x, b.counters.sort_id) by {
        lemma_copies_last(b.hand, x);
    }
}

broadcast proof fn lemma_card_copied(m: RunModel, src: Card)
    ensures
        mints(m, #[trigger] m.card_copied(src)),
{
    assert(m.card_copied(src).hand.drop_last() =~= m.hand);
    lemma_one_more_in_hand(m, m.card_copied(src));
}

proof fn lemma_many_created(m: RunModel, kind: CreateKind, n: nat)
    ensures
        mints(m, m.many_created(kind, n)),
    decreases n,
{
    if n > 0 {
        lemma_many_created(m, kind, (n - 1) as nat);
        let a = m.many_created(kind, (n - 1) as nat);
        let b = a.one_created(kind);
        assert(b.hand.drop_last() =~= a.hand);
        lemma_one_more_in_hand(a, b);
    }
}

proof fn lemma_found_in(ids: Seq<u32>, x: u32, from: nat)
    ensures
        making::found_from(ids, x, from) matches Some(i) ==> i < ids.len(),
    decreases ids.len() - from,
{
    if from < ids.len() {
        lemma_found_in(ids, x, from + 1);
    }
}

proof fn lemma_one_destroyed(m: RunModel)
    ensures
        mints(m, m.one_destroyed()),
{
    let ids = making::card_ids(m.hand);
    let number = making::picked(m.s, "random_destroy"@, ids);
    lemma_found_in(ids, number, 0);
    if let Some(i) = making::found(ids, number) {
        assert forall|x: u32| (#[trigger] m.one_destroyed().bearing(x)) <= m.bearing(x) by {
            lemma_copies_remove(m.hand, i as int, x);
        }
    }
}

proof fn lemma_burned(m: RunModel, cards: Seq<Card>, n: nat)
    ensures
        mints(m, m.burned(cards, n)),
    decreases n,
{
    if n > 0 {
        lemma_burned(m, cards, (n - 1) as nat);
        let a = m.burned(cards, (n - 1) as nat);
        let ids = making::card_ids(a.hand);
        lemma_found_in(ids, cards[n - 1].sort_id, 0);
        if let Some(i) = making::found(ids, cards[n - 1].sort_id) {
            assert forall|x: u32| (#[trigger] m.burned(cards, n).bearing(x)) <= a.bearing(x) by {
                lemma_copies_remove(a.hand, i as int, x);
            }
            assert(mints(a, m.burned(cards, n)));
        }
    }
}

proof fn lemma_exchanged(m: RunModel, kind: CreateKind, extra: nat)
    ensures
        mints(m, m.exchanged(kind, extra)),
{
    lemma_one_destroyed(m);
    lemma_many_created(m.one_destroyed(), kind, extra);
}

proof fn lemma_immolated(m: RunModel)
    ensures
        mints(m, m.immolated()),
{
    let cards = crate::deck::shuffled(m.hand, m.s.drawn_seed("immolate"@));
    let n = if m.hand.len() < 5 {
        m.hand.len()
    } else {
        5
    };
    lemma_burned(m.after("immolate"@), cards, n);
}

proof fn lemma_all_changed(m: RunModel, b: RunModel, f: spec_fn(Card) -> Card)
    requires
        keeps_number(f),
        b.hand == m.hand.map_values(f),
        b.counters == m.counters,
        b.deck == m.deck,
        b.discard_pile == m.discard_pile,
        b.shop == m.shop,
        b.pack == m.pack,
    ensures
        mints(m, b),
{
    assert forall|x: u32| (#[trigger] b.bearing(x)) <= m.bearing(x) by {
        lemma_same_numbers(b.hand, m.hand, x);
    }
}

proof fn lemma_hand_effect(m: RunModel, key: Seq<char>, targets: Seq<usize>)
    ensures
        m.hand_effect(key, targets) matches Some(b) ==> mints(m, b),
{
    broadcast use lemma_card_copied;

    reveal(RunModel::hand_effect);
    lemma_exchanged(m, CreateKind::Familiar, 3);
    lemma_exchanged(m, CreateKind::Grim, 2);
    lemma_exchanged(m, CreateKind::Incantation, 4);
    lemma_immolated(m);
    if let Some(b) = m.hand_effect(key, targets) {
        if key == "c_sigil"@ {
            let suit = tarots::drawn_suit(m.s.place("sigil"@, 4));
            lemma_all_changed(m, b, |c: Card| Card { suit, ..c });
        } else if key == "c_ouija"@ {
            let rank = Rank((2 + m.s.place("ouija"@, 13)) as u8);
            lemma_all_changed(m, b, |c: Card| Card { rank, ..c });
        } else if key == "c_cryptid"@ {
            if targets.len() > 0 && targets[0] < m.hand.len() {
                let src = m.hand[targets[0] as int];
                lemma_mints_on(m, m.card_copied(src), m.card_copied(src).card_copied(src));
            }
        } else if key == "c_hanged_man"@ {
            let sel = order::sorted(targets, scoring::place_leq());
            assert forall|x: u32| (#[trigger] b.bearing(x)) <= m.bearing(x) by {
                lemma_left_fewer(m.hand, sel, m.hand.len(), x);
                assert(m.hand.take(m.hand.len() as int) =~= m.hand);
            }
        }
    }
}

proof fn lemma_wealth_effect(m: RunModel, key: Seq<char>)
    ensures
        m.wealth_effect(key) matches Some(b) ==> keeps_cards(m, b),
{
    broadcast use lemma_consumable_drawn;

    reveal(RunModel::wealth_effect);
}

proof fn lemma_others_removed(m: RunModel, id: u32, n: nat)
    ensures
        mints(m, m.others_removed(id, n)),
    decreases n,
{
    if n > 0 {
        if let Some(i) = crate::usage::other_from(m.jokers, id, 0) {
            lemma_without_joker(m, i);
            lemma_others_removed(m.without_joker(i), id, (n - 1) as nat);
        }
    }
}

proof fn lemma_forgotten(m: RunModel, gone: Seq<OwnedJoker>, n: nat)
    ensures
        keeps_cards(m, m.forgotten(gone, n)),
    decreases n,
{
    if n > 0 {
        lemma_forgotten(m, gone, (n - 1) as nat);
    }
}

broadcast proof fn lemma_joker_joined(
    m: RunModel,
    rarity: Option<Double>,
    legendary: bool,
    append: &'static str,
)
    ensures
        mints(m, #[trigger] m.joker_joined(rarity, legendary, append)),
{
    let (j, b) = m.joker_made(rarity, legendary, append, JokerArea::Direct);
    lemma_joker_made(m, rarity, legendary, append, JokerArea::Direct);
    lemma_disabling(true);
    lemma_with_joker(b, j, disabling(true));
}

proof fn lemma_ankh_made(m: RunModel)
    ensures
        mints(m, m.ankh_made()),
{
    reveal(RunModel::ankh_made);
    let ids = making::joker_ids(m.jokers);
    let id = making::picked(m.s, "ankh_choice"@, ids);
    let a = m.after("ankh_choice"@);
    if let Some(i) = making::found(ids, id) {
        let j = m.jokers[i as int];
        lemma_others_removed(a, id, m.jokers.len());
        let c = a.others_removed(id, m.jokers.len()).copy_drawn(j);
        let copy = OwnedJoker {
            debuffed: false,
            flipped: false,
            ..crate::usage::copied(j, c.next_id())
        };
        lemma_disabling(true);
        lemma_with_joker(c.numbered().using(j.id.row().key@), copy, disabling(true));
    }
}

proof fn lemma_hexed(m: RunModel)
    ensures
        keeps_cards(m, m.hexed()),
{
    reveal(RunModel::hexed);
    let id = m.plain_picked("hex"@);
    let b = m.after("hex"@).with_edition(id, Edition::Polychrome);
    let n = b.jokers.len();
    let gone = crate::usage::numbered(b.jokers, id, false, n);
    lemma_forgotten(
        RunModel { jokers: crate::usage::numbered(b.jokers, id, true, n), ..b },
        gone,
        gone.len(),
    );
}

proof fn lemma_joker_effect(m: RunModel, key: Seq<char>)
    ensures
        m.joker_effect(key) matches Some(b) ==> mints(m, b),
{
    broadcast use lemma_joker_joined;

    reveal(RunModel::joker_effect);
    reveal(RunModel::wheel_spun);
    reveal(RunModel::ectoplasm_used);
    lemma_ankh_made(m);
    lemma_hexed(m);
}

broadcast proof fn lemma_used_up(m: RunModel, key: &'static str, targets: Seq<usize>)
    ensures
        mints(m, (#[trigger] m.used_up(key, targets)).run),
{
    reveal(RunModel::used);
    reveal(RunModel::level_effect);
    let c = m.use_counted(key@);
    lemma_target_effect(c, key@, targets);
    lemma_hand_effect(c, key@, targets);
    lemma_wealth_effect(c, key@);
    lemma_joker_effect(c, key@);
    assert(keeps_cards(m, c));
    if let Some(b) = c.effect(key@, targets) {
        assert(mints(c, b));
        assert(keeps_cards(b, m.used_up(key, targets).run));
    }
}

/// Using a consumable keeps the numbers of cards apart.
pub proof fn law_using_keeps_numbers_apart(m: RunModel, idx: usize, targets: Seq<usize>)
    requires
        m.numbers_apart(),
    ensures
        m.consumable_used(idx, targets).run.numbers_apart(),
{
    reveal(RunModel::consumable_used);
    if idx < m.consumables.len() {
        let c = m.without_consumable(idx as nat);
        assert(keeps_cards(m, c));
        lemma_used_up(c, m.consumables[idx as int].key, targets);
    }
    lemma_apart(m, m.consumable_used(idx, targets).run);
}

// ---- the shop ------------------------------------------------------------

proof fn lemma_stall(m: RunModel, place: nat, enhanced: bool)
    ensures
        passes(
            m,
            nothing(),
            m.stall(place, enhanced).1,
            |x: u32| item_has(ShopItem { kind: m.stall(place, enhanced).0, couponed: false }, x),
        ),
{
    broadcast use group_draws;

    reveal(RunModel::stall_card);
}

proof fn lemma_slot_rolled(m: RunModel)
    ensures
        passes(m, nothing(), m.slot_rolled().1, |x: u32| item_has(m.slot_rolled().0, x)),
{
    reveal(RunModel::slot_rolled);
    let key = m.at_ante("cdt");
    let poll = m.s.unit(key).times(m.rates.total());
    let a = m.after(key);
    let illusion = m.redeemed("v_illusion");
    let enhanced = illusion && making::above(a.s.unit("illusion"@), 600);
    let b = if illusion {
        a.after("illusion"@)
    } else {
        a
    };
    let place = m.rates.stretch(poll, 0, Double::of(0));
    lemma_stall(b, place, enhanced);
    let c = b.stall(place, enhanced).1;
    let one = |x: u32| item_has(ShopItem { kind: b.stall(place, enhanced).0, couponed: false }, x);
    let rolled = |x: u32| item_has(m.slot_rolled().0, x);
    assert(c == m.slot_rolled().1);
    assert forall|x: u32| c.counters.sort_id < u32::MAX implies (#[trigger] c.bearing(x)) + rolled(
        x,
    ) <= m.bearing(x) + nothing()(x) + fresh(m.counters.sort_id, x, c.counters.sort_id) by {
        assert(c.bearing(x) + one(x) <= b.bearing(x) + nothing()(x) + fresh(
            b.counters.sort_id,
            x,
            c.counters.sort_id,
        ));
    }
}

proof fn lemma_slot_filled(m: RunModel)
    ensures
        passes(m, nothing(), m.slot_filled().1, |x: u32| item_has(m.slot_filled().0, x)),
{
    broadcast use lemma_joker_made;

    reveal(RunModel::slot_filled);
    let (item, c) = m.slot_filled();
    let beside = |x: u32| item_has(item, x);
    lemma_slot_rolled(m);
    match market::bringing_tag(m.tags, 0) {
        Some(i) => {
            let a = RunModel { tags: m.tags.remove(i as int), ..m };
            let (j, b) = a.tag_brought(m.tags[i as int].key@);
            lemma_slot_rolled(b);
            let rolled = |x: u32| item_has(b.slot_rolled().0, x);
            assert(keeps_cards(m, b));
            assert forall|x: u32| c.counters.sort_id < u32::MAX implies (#[trigger] c.bearing(x))
                + beside(x) <= m.bearing(x) + nothing()(x) + fresh(
                m.counters.sort_id,
                x,
                c.counters.sort_id,
            ) by {
                if j is None {
                    assert(c.bearing(x) + rolled(x) <= b.bearing(x) + nothing()(x) + fresh(
                        b.counters.sort_id,
                        x,
                        c.counters.sort_id,
                    ));
                }
            }
        },
        None => {
            let rolled = |x: u32| item_has(m.slot_rolled().0, x);
            assert forall|x: u32| c.counters.sort_id < u32::MAX implies (#[trigger] c.bearing(x))
                + beside(x) <= m.bearing(x) + nothing()(x) + fresh(
                m.counters.sort_id,
                x,
                c.counters.sort_id,
            ) by {
                assert(c.bearing(x) + rolled(x) <= m.bearing(x) + nothing()(x) + fresh(
                    m.counters.sort_id,
                    x,
                    c.counters.sort_id,
                ));
            }
        },
    }
}

broadcast proof fn lemma_stocked(m: RunModel, n: nat)
    ensures
        mints(m, #[trigger] m.stocked(n)),
    decreases n,
{
    if n > 0 {
        lemma_stocked(m, (n - 1) as nat);
        let a = m.stocked((n - 1) as nat);
        lemma_slot_filled(a);
        let (item, b) = a.slot_filled();
        let one = |x: u32| item_has(item, x);
        let c = b.with_item(item);
        assert(mints(a, c)) by {
            assert forall|x: u32| c.counters.sort_id < u32::MAX implies (#[trigger] c.bearing(x))
                <= a.bearing(x) + fresh(a.counters.sort_id, x, c.counters.sort_id) by {
                assert(b.bearing(x) + one(x) <= a.bearing(x) + nothing()(x) + fresh(
                    a.counters.sort_id,
                    x,
                    b.counters.sort_id,
                ));
                if let Some(shop) = b.shop {
                    lemma_shop_copies_push(shop.jokers, item, x);
                }
            }
        }
        lemma_mints_on(m, a, c);
    }
}

proof fn lemma_items_finished(m: RunModel, items: Seq<ShopItem>, n: nat)
    requires
        n <= items.len(),
    ensures
        keeps_cards(m, m.items_finished(items, n).1),
        same_cards(m.items_finished(items, n).0, items.take(n as int)),
    decreases n,
{
    if n > 0 {
        lemma_items_finished(m, items, (n - 1) as nat);
        let (done, a) = m.items_finished(items, (n - 1) as nat);
        let (item, b) = a.tag_finished(items[n - 1]);
        assert forall|i: int, x: u32| 0 <= i < n implies #[trigger] item_has(
            done.push(item)[i],
            x,
        ) == item_has(items.take(n as int)[i], x) by {
            if i < n - 1 {
                assert(item_has(done[i], x) == item_has(items.take(n - 1)[i], x));
            }
        }
    }
}

broadcast proof fn lemma_shop_finished(m: RunModel)
    ensures
        mints(m, #[trigger] m.shop_finished()),
{
    if let Some(shop) = m.shop {
        lemma_items_finished(m, shop.jokers, shop.jokers.len());
        assert(shop.jokers.take(shop.jokers.len() as int) =~= shop.jokers);
        assert forall|x: u32| (#[trigger] m.shop_finished().bearing(x)) <= m.bearing(x) by {
            lemma_same_cards(
                m.items_finished(shop.jokers, shop.jokers.len()).0,
                shop.jokers,
                x,
            );
        }
    }
}

broadcast proof fn lemma_shop_laid(m: RunModel)
    ensures
        mints(m, #[trigger] m.shop_laid()),
{
    broadcast use {lemma_tags_applied, lemma_stocked, lemma_shop_finished};

    reveal(RunModel::shop_laid);
    let t = m.tags_applied(TagContext::ShopStart);
    let e = RunModel { shop: Some(ShopModel::empty()), ..t };
    assert(mints(t, e)) by {
        assert forall|x: u32| (#[trigger] e.bearing(x)) <= t.bearing(x) by {
            lemma_no_items(x);
            assert(ShopModel::empty().jokers =~= seq![]);
        }
    }
    let f = e.stocked(e.limits.shop_joker_max as nat).shop_finished();
    lemma_mints_on(m, t, e);
    lemma_mints_on(m, e, e.stocked(e.limits.shop_joker_max as nat));
    lemma_mints_on(m, e.stocked(e.limits.shop_joker_max as nat), f);
    let p = f.voucher_shown().pack_laid().pack_laid();
    assert(mints(f, p));
    lemma_mints_on(m, f, p);
    let v = p.tags_applied(TagContext::VoucherAdd);
    lemma_mints_on(m, p, v);
    lemma_mints_on(m, v, v.tags_applied(TagContext::ShopFinalPass));
}

proof fn lemma_cashed_out(m: RunModel)
    ensures
        mints(m, m.cashed_out().run),
{
    broadcast use {lemma_tag_drawn, lemma_shop_laid};

    reveal(RunModel::cashed_out);
    reveal(RunModel::blinds_renewed);
    let d = m.deck_shuffled(m.at_ante("cashout"));
    assert(mints(m, d)) by {
        assert forall|x: u32| (#[trigger] d.bearing(x)) <= m.bearing(x) by {
            lemma_moved_about(m.deck, m.s.drawn_seed(m.at_ante("cashout")), x);
        }
    }
}

broadcast proof fn lemma_items_released(m: RunModel, items: Seq<ShopItem>, n: nat)
    ensures
        keeps_cards(m, #[trigger] m.items_released(items, n)),
    decreases n,
{
    if n > 0 {
        lemma_items_released(m, items, (n - 1) as nat);
    }
}

broadcast proof fn lemma_vouchers_released(m: RunModel, list: Seq<VoucherOffer>, n: nat)
    ensures
        keeps_cards(m, #[trigger] m.vouchers_released(list, n)),
    decreases n,
{
    if n > 0 {
        lemma_vouchers_released(m, list, (n - 1) as nat);
    }
}

broadcast proof fn lemma_pack_released(m: RunModel, items: Seq<PackItem>, n: nat)
    ensures
        keeps_cards(m, #[trigger] m.pack_released(items, n)),
    decreases n,
{
    if n > 0 {
        lemma_pack_released(m, items, (n - 1) as nat);
    }
}

proof fn lemma_perkeos_done(m: RunModel, n: nat)
    ensures
        keeps_cards(m, m.perkeos_done(n)),
    decreases n,
{
    reveal(RunModel::perkeo_copied);
    if n > 0 {
        lemma_perkeos_done(m, (n - 1) as nat);
    }
}

proof fn lemma_shop_rerolled(m: RunModel)
    ensures
        mints(m, m.shop_rerolled().run),
{
    broadcast use {lemma_reroll_priced, lemma_items_released, lemma_stocked, lemma_shop_finished};

    reveal(RunModel::shop_rerolled);
    let p = m.reroll_paid();
    assert(keeps_cards(m, p));
    let g = p.with_jokers(p.jokers.map_values(crate::trade::flash_grown()));
    let e = g.shop_emptied();
    assert(mints(g, e)) by {
        assert forall|x: u32| (#[trigger] e.bearing(x)) <= g.bearing(x) by {
            lemma_no_items(x);
        }
    }
    let s = e.stocked(e.limits.shop_joker_max as nat);
    lemma_mints_on(m, g, e);
    lemma_mints_on(m, e, s);
    lemma_mints_on(m, s, s.shop_finished());
}

/// Cashing out, rerolling and leaving the shop keep the numbers of cards apart.
pub proof fn law_shopping_keeps_numbers_apart(m: RunModel)
    requires
        m.numbers_apart(),
    ensures
        m.cashed_out().run.numbers_apart(),
        m.shop_rerolled().run.numbers_apart(),
        m.shop_left().run.numbers_apart(),
{
    lemma_cashed_out(m);
    lemma_apart(m, m.cashed_out().run);
    lemma_shop_rerolled(m);
    lemma_apart(m, m.shop_rerolled().run);
    assert(mints(m, m.shop_left().run)) by {
        broadcast use {lemma_items_released, lemma_vouchers_released, lemma_at_blind_select};

        reveal(RunModel::shop_left);
        lemma_perkeos_done(m, m.jokers.len());
        let p = m.perkeos_done(m.jokers.len());
        assert(mints(p, p.shop_closed()));
        lemma_mints_on(m, p, p.shop_closed());
    }
    lemma_apart(m, m.shop_left().run);
}

// ---- buying, selling and packs -------------------------------------------

proof fn lemma_copies_in_front(s: Seq<Card>, c: Card, x: u32)
    ensures
        copies(s.insert(0, c), x) == copies(s, x) + has(c, x),
{
    assert(s.insert(0, c).remove(0) =~= s);
    lemma_copies_remove(s.insert(0, c), 0, x);
}

proof fn lemma_item_bought(m: RunModel, slot: usize, and_use: bool, targets: Seq<usize>)
    ensures
        mints(m, m.item_bought(slot, and_use, targets).run),
{
    broadcast use {lemma_used_up, lemma_with_joker, lemma_disabling};

    reveal(RunModel::item_bought);
    if m.shop is Some && slot < m.shop->0.jokers.len() {
        let shop = m.shop->0;
        let item = shop.jokers[slot as int];
        let a = m.without_item(slot as nat);
        let b = a.item_gained(item.kind);
        assert(mints(m, a)) by {
            assert forall|x: u32| (#[trigger] a.bearing(x)) <= m.bearing(x) by {
                lemma_shop_copies_remove(shop.jokers, slot as int, x);
            }
        }
        assert(mints(m, b)) by {
            if let ShopItemKind::PlayingCard(card) = item.kind {
                assert forall|x: u32| (#[trigger] b.bearing(x)) <= m.bearing(x) by {
                    lemma_shop_copies_remove(shop.jokers, slot as int, x);
                    lemma_copies_in_front(m.deck, card, x);
                }
            }
        }
    }
}

proof fn lemma_voucher_redeemed(m: RunModel, slot: usize)
    ensures
        mints(m, m.voucher_redeemed(slot).run),
{
    broadcast use {lemma_stocked, lemma_shop_finished};

    reveal(RunModel::voucher_redeemed);
    reveal(RunModel::voucher_applied);
    assert forall|a: RunModel| mints(a, #[trigger] a.shop_widened()) by {}
}

/// Buying and redeeming keep the numbers of cards apart.
pub proof fn law_buying_keeps_numbers_apart(
    m: RunModel,
    slot: usize,
    and_use: bool,
    targets: Seq<usize>,
)
    requires
        m.numbers_apart(),
    ensures
        m.item_bought(slot, and_use, targets).run.numbers_apart(),
        m.voucher_redeemed(slot).run.numbers_apart(),
        m.pack_bought(slot).run.numbers_apart(),
{
    lemma_item_bought(m, slot, and_use, targets);
    lemma_apart(m, m.item_bought(slot, and_use, targets).run);
    lemma_voucher_redeemed(m, slot);
    lemma_apart(m, m.voucher_redeemed(slot).run);
    assert(mints(m, m.pack_bought(slot).run)) by {
        broadcast use lemma_pack_opened;

        reveal(RunModel::pack_bought);
    }
    lemma_apart(m, m.pack_bought(slot).run);
}

/// Selling keeps the numbers of cards apart.
pub proof fn law_selling_keeps_numbers_apart(m: RunModel, idx: usize)
    requires
        m.numbers_apart(),
    ensures
        m.joker_sold(idx).run.numbers_apart(),
        m.consumable_sold(idx).run.numbers_apart(),
{
    broadcast use {lemma_with_joker, lemma_without_joker, lemma_disabled, lemma_disabling};

    reveal(RunModel::joker_sold);
    reveal(RunModel::parted);
    reveal(RunModel::invisible_copied);
    reveal(RunModel::joker_gone);
    reveal(RunModel::consumable_sold);
    assert(mints(m, m.joker_sold(idx).run));
    lemma_apart(m, m.joker_sold(idx).run);
    assert(keeps_cards(m, m.consumable_sold(idx).run));
    lemma_apart(m, m.consumable_sold(idx).run);
}

proof fn lemma_copies_reversed(s: Seq<Card>, x: u32)
    ensures
        copies(s.reverse(), x) == copies(s, x),
    decreases s.len(),
{
    if s.len() == 0 {
        assert(s.reverse() =~= s);
    } else {
        lemma_copies_last(s, x);
        lemma_copies_reversed(s.drop_last(), x);
        assert(s.reverse() =~= s.drop_last().reverse().insert(0, s.last()));
        lemma_copies_in_front(s.drop_last().reverse(), s.last(), x);
    }
}

broadcast proof fn lemma_pack_finished(m: RunModel)
    ensures
        mints(m, #[trigger] m.pack_finished()),
{
    broadcast use lemma_pack_released;

    reveal(RunModel::pack_finished);
    if let Some(pack) = m.pack {
        let r = (RunModel { pack: None, ..m }).pack_released(pack.items, pack.items.len());
        let h = if pack.hand_dealt {
            r.hand_returned()
        } else {
            r
        };
        assert(mints(m, h)) by {
            assert forall|x: u32| (#[trigger] h.bearing(x)) <= m.bearing(x) by {
                lemma_copies_reversed(r.hand, x);
                lemma_copies_add(r.hand.reverse(), r.deck, x);
                lemma_copies_none(x);
            }
        }
        lemma_choices_tagged(RunModel { state: State::BlindSelect, ..h });
    }
}

broadcast proof fn lemma_choice_made(m: RunModel)
    ensures
        mints(m, #[trigger] m.choice_made()),
{
    broadcast use lemma_pack_finished;

}

proof fn lemma_pack_picked(m: RunModel, idx: usize, targets: Seq<usize>)
    ensures
        mints(m, m.pack_picked(idx, targets).run),
{
    broadcast use {lemma_used_up, lemma_with_joker, lemma_disabling, lemma_choice_made};

    reveal(RunModel::pack_picked);
    if m.pack is Some && idx < m.pack->0.items.len() {
        let pack = m.pack->0;
        let a = m.without_pack_item(idx as nat);
        assert(mints(m, a)) by {
            assert forall|x: u32| (#[trigger] a.bearing(x)) <= m.bearing(x) by {
                lemma_pack_copies_remove(pack.items, idx as int, x);
            }
        }
        if let PackItem::PlayingCard(card) = pack.items[idx as int] {
            let b = a.card_gained(card);
            assert(mints(m, b)) by {
                assert forall|x: u32| (#[trigger] b.bearing(x)) <= m.bearing(x) by {
                    lemma_pack_copies_remove(pack.items, idx as int, x);
                    lemma_copies_in_front(m.deck, card, x);
                }
            }
        }
    }
}

/// Taking cards out of packs and skipping packs keep the numbers of cards apart.
pub proof fn law_packs_keep_numbers_apart(m: RunModel, idx: usize, targets: Seq<usize>)
    requires
        m.numbers_apart(),
    ensures
        m.pack_picked(idx, targets).run.numbers_apart(),
        m.pack_skipped().run.numbers_apart(),
{
    lemma_pack_picked(m, idx, targets);
    lemma_apart(m, m.pack_picked(idx, targets).run);
    assert(mints(m, m.pack_skipped().run)) by {
        broadcast use lemma_pack_finished;

        reveal(RunModel::pack_skipped);
    }
    lemma_apart(m, m.pack_skipped().run);
}

// ---- the start and what follows ------------------------------------------

/// Cards numbered from one on are apart.
proof fn lemma_counted_up(s: Seq<Card>, x: u32)
    requires
        forall|i: int| 0 <= i < s.len() ==> (#[trigger] s[i]).sort_id == i + 1,
    ensures
        copies(s, x) == (if 1 <= x <= s.len() {
            1nat
        } else {
            0
        }),
    decreases s.len(),
{
    lemma_copies_none(x);
    if s.len() == 0 {
        assert(s =~= seq![]);
    } else {
        assert forall|i: int| 0 <= i < s.len() - 1 implies (#[trigger] s.drop_last()[i]).sort_id
            == i + 1 by {
            assert(s[i].sort_id == i + 1);
        }
        lemma_counted_up(s.drop_last(), x);
        lemma_copies_last(s, x);
        assert(s[s.len() - 1].sort_id == s.len());
    }
}

/// A new run has its numbers apart.
pub proof fn law_runs_start_with_numbers_apart(seed: Seq<char>)
    ensures
        course::started(seed).numbers_apart(),
{
    broadcast use {lemma_voucher_drawn, lemma_tag_drawn, lemma_marks_reset, lemma_at_blind_select};

    reveal(course::started);
    let m = course::opening(seed).voucher_offered().blind_tags_drawn();
    assert(keeps_cards(course::opening(seed), m));
    let s = crate::rng::Streams::start(seed);
    let cards = deck::starting_deck(config::Deck::Red, s);
    let d = RunModel { deck: cards, ..m };
    assert(d.counters.sort_id >= 52);
    assert(d.numbers_apart()) by {
        assert forall|x: u32|
            (#[trigger] d.bearing(x)) <= 1 && (d.bearing(x) > 0 ==> x <= d.counters.sort_id) by {
            assert forall|i: int| 0 <= i < cards.len() implies (#[trigger] cards[i]).sort_id == i
                + 1 by {
                deck::law_starting_cards_are_numbered(config::Deck::Red, s, i);
            }
            if cards.len() > 0 {
                deck::law_starting_cards_are_numbered(config::Deck::Red, s, 0);
            }
            lemma_counted_up(cards, x);
            lemma_copies_none(x);
        }
    }
    let h = d.deck_shuffled("shuffle"@);
    assert(mints(d, h)) by {
        assert forall|x: u32| (#[trigger] h.bearing(x)) <= d.bearing(x) by {
            lemma_moved_about(d.deck, d.s.drawn_seed("shuffle"@), x);
        }
    }
    lemma_mints_on(d, h, h.marks_reset());
    lemma_mints_on(d, h.marks_reset(), h.marks_reset().at_blind_select());
    lemma_apart(d, course::started(seed));
}

proof fn lemma_two_copies(s: Seq<Card>, i: int, j: int)
    requires
        0 <= i < j < s.len(),
        s[i].sort_id == s[j].sort_id,
    ensures
        copies(s, s[i].sort_id) >= 2,
{
    let x = s[i].sort_id;
    lemma_copies_remove(s, j, x);
    lemma_copies_remove(s.remove(j), i, x);
}

/// Where the numbers are apart and have not run out, no number occurs twice
/// among the deck, the hand and the discard pile.
pub proof fn law_numbers_apart_are_distinct(m: RunModel)
    requires
        m.numbers_apart(),
        m.counters.sort_id < u32::MAX,
    ensures
        deck::distinct_ids(m.deck),
        deck::distinct_ids(m.deck + m.hand + m.discard_pile),
{
    let all = m.deck + m.hand + m.discard_pile;
    assert forall|i: int, j: int| 0 <= i < j < all.len() implies #[trigger] all[i].sort_id
        != #[trigger] all[j].sort_id by {
        if all[i].sort_id == all[j].sort_id {
            let x = all[i].sort_id;
            lemma_two_copies(all, i, j);
            lemma_copies_add(m.deck + m.hand, m.discard_pile, x);
            lemma_copies_add(m.deck, m.hand, x);
            assert(m.bearing(x) <= 1);
        }
    }
    assert forall|i: int, j: int| 0 <= i < j < m.deck.len() implies #[trigger] m.deck[i].sort_id
        != #[trigger] m.deck[j].sort_id by {
        assert(all[i] == m.deck[i] && all[j] == m.deck[j]);
    }
}

/// Drawing the unknown anew keeps the numbers of cards apart, and does not
/// depend on what was hidden as long as the numbers have not run out.
pub proof fn law_redetermining_keeps_numbers_apart(m: RunModel, n: RunModel, seed: Seq<char>)
    requires
        m.numbers_apart(),
    ensures
        m.redetermined(seed).numbers_apart(),
        m.counters.sort_id < u32::MAX && n == (RunModel { s: n.s, deck: n.deck, ..m })
            && m.deck.to_multiset() == n.deck.to_multiset() ==> m.redetermined(seed)
            == n.redetermined(seed),
{
    let b = m.redetermined(seed);
    assert forall|x: u32| (#[trigger] b.bearing(x)) <= m.bearing(x) by {
        lemma_moved_about(m.deck, crate::rng::Streams::start(seed).drawn_seed("redet"@), x);
    }
    lemma_apart(m, b);
    if m.counters.sort_id < u32::MAX && n == (RunModel { s: n.s, deck: n.deck, ..m })
        && m.deck.to_multiset() == n.deck.to_multiset() {
        law_numbers_apart_are_distinct(m);
        actions::law_redetermining_forgets_what_was_hidden(m, n, seed);
    }
}

} // verus!
