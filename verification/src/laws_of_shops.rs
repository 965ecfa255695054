//! What is paid and what is had for it: buying, selling, vouchers and tags.
use crate::cards::{Edition, HandType};
use crate::double::Double;
use crate::items;
use crate::items::JokerId;
use crate::key_marks::{lemma_tag_marks, lemma_voucher_marks};
use crate::making;
use crate::prices::{half_price, law_prices_in_whole_numbers, law_resale_in_whole_numbers, whole_price};
use crate::registry;
use crate::round;
use crate::run::{RunModel, State};
use crate::shop::{OwnedJoker, PackItem, RunTag, ShopItem, ShopItemKind, TagContext};
use vstd::prelude::*;

verus! {

// ---- buying --------------------------------------------------------------

/// What an edition adds to a price.
pub open spec fn surcharge(e: Edition) -> int {
    match e {
        Edition::Plain => 0,
        Edition::Foil => 2,
        Edition::Holo => 3,
        Edition::Polychrome => 5,
        Edition::Negative => 5,
    }
}

/// What a joker in the shop costs: its own cost and that of its edition, with the
/// discount; nothing with a coupon. It sells for half of that, and at least for 1.
pub proof fn law_what_jokers_cost(m: RunModel, j: OwnedJoker, couponed: bool)
    requires
        0 <= j.id.row().cost <= 1000,
        0 <= m.purse.discount_percent <= 100,
        0 <= j.extra_value <= 1_000_000,
    ensures
        m.item_price(ShopItem { kind: ShopItemKind::Joker(j), couponed }) == (if couponed {
            0
        } else {
            whole_price(
                j.id.row().cost + surcharge(j.edition),
                m.purse.discount_percent as int,
            )
        }),
        m.joker_worth(j) == half_price(
            j.id.row().cost + surcharge(j.edition),
            m.purse.discount_percent as int,
        ) + j.extra_value,
{
    law_prices_in_whole_numbers(j.id.row().cost, j.edition, m.purse.discount_percent);
    let f = j.id.row().cost + surcharge(j.edition);
    let d = m.purse.discount_percent as int;
    assert(whole_price(f, d) <= 3000) by (nonlinear_arith)
        requires
            0 <= f <= 1005,
            0 <= d <= 100,
            whole_price(f, d) == ({
                let cost = ((2 * f + 1) * (100 - d)) / 200;
                if cost < 1 {
                    1
                } else {
                    cost
                }
            }),
    ;
    law_resale_in_whole_numbers(
        j.id.row().cost,
        j.edition,
        m.purse.discount_percent,
        j.extra_value,
    );
    reveal(items::price);
}

/// What is bought is had, is gone from the shop, and its price is paid.
#[verifier::rlimit(40)]
pub proof fn law_buying_pays_the_price(m: RunModel, slot: usize)
    requires
        m.item_bought(slot, false, seq![]).refusal is None,
    ensures
        m.shop is Some && slot < m.shop->0.jokers.len(),
        ({
            let item = m.shop->0.jokers[slot as int];
            let run = m.item_bought(slot, false, seq![]).run;
            let price = m.item_price(item);
            &&& price <= 0 || price <= m.purse.dollars.wrapping_sub(m.purse.bankrupt_at)
            &&& match item.kind {
                ShopItemKind::Joker(j) => j.id != JokerId::Chicot ==> {
                    &&& run.purse.dollars == m.purse.dollars.wrapping_sub(price)
                    &&& run.jokers == m.jokers.push(j)
                    &&& run.shop is Some && run.shop->0.jokers == m.shop->0.jokers.remove(
                        slot as int,
                    )
                    &&& m.jokers.len() < m.limits.joker_slots || j.edition == Edition::Negative
                },
                ShopItemKind::Consumable(c) => {
                    &&& run.purse.dollars == m.purse.dollars.wrapping_sub(price)
                    &&& run.consumables == m.consumables.push(c)
                    &&& run.shop is Some && run.shop->0.jokers == m.shop->0.jokers.remove(
                        slot as int,
                    )
                    &&& m.consumables.len() < m.limits.consumable_slots
                },
                ShopItemKind::PlayingCard(c) => {
                    &&& run.purse.dollars == m.purse.dollars.wrapping_sub(price)
                    &&& run.deck == seq![c] + m.deck
                    &&& run.shop is Some && run.shop->0.jokers == m.shop->0.jokers.remove(
                        slot as int,
                    )
                },
            }
        }),
{
    reveal(RunModel::item_bought);
    reveal(RunModel::with_joker);
    reveal(RunModel::passives_on);
    reveal(RunModel::with_free_rerolls);
    reveal(RunModel::reroll_priced);
    let item = m.shop->0.jokers[slot as int];
    if let ShopItemKind::PlayingCard(c) = item.kind {
        let run = m.item_bought(slot, false, seq![]).run;
        assert(m.deck.insert(0, c) =~= seq![c] + m.deck);
    }
}

/// A sold consumable is gone and its worth is paid.
pub proof fn law_selling_consumables_pays(m: RunModel, idx: usize)
    requires
        m.consumable_sold(idx).refusal is None,
    ensures
        idx < m.consumables.len(),
        m.consumable_sold(idx).run.consumables == m.consumables.remove(idx as int),
        m.consumable_sold(idx).run.purse.dollars == m.purse.dollars.wrapping_add(
            m.consumable_worth(m.consumables[idx as int]),
        ),
{
    reveal(RunModel::consumable_sold);
}

/// Whether a joker does something when it is sold.
pub open spec fn parts_loudly(id: JokerId) -> bool {
    id == JokerId::Luchador || id == JokerId::DietCola || id == JokerId::Invisible || id
        == JokerId::Blueprint || id == JokerId::Brainstorm
}

/// A sold joker is gone and its worth is paid.
#[verifier::rlimit(40)]
pub proof fn law_selling_jokers_pays(m: RunModel, idx: usize)
    requires
        m.joker_sold(idx).refusal is None,
        m.jokers.len() <= usize::MAX,
        !parts_loudly(m.jokers[idx as int].id),
        m.round.active_blind is None,
        forall|a: int, b: int|
            0 <= a < m.jokers.len() && 0 <= b < m.jokers.len() && a != b
                ==> (#[trigger] m.jokers[a]).sort_id != (#[trigger] m.jokers[b]).sort_id,
    ensures
        idx < m.jokers.len(),
        ({
            let run = m.joker_sold(idx).run;
            &&& run.purse.dollars == m.purse.dollars.wrapping_add(
                m.joker_worth(m.jokers[idx as int]),
            )
            &&& run.jokers.len() == m.jokers.len() - 1
            &&& forall|k: int|
                0 <= k < run.jokers.len() ==> (#[trigger] run.jokers[k]).id == m.jokers.remove(
                    idx as int,
                )[k].id
        }),
{
    reveal(RunModel::joker_sold);
    reveal(RunModel::parted);
    reveal(RunModel::joker_gone);
    reveal(RunModel::without_joker);
    reveal(RunModel::passives_off);
    reveal(RunModel::with_free_rerolls);
    reveal(RunModel::reroll_priced);
    crate::laws_of_jokers::law_who_acts(m.jokers, idx);
    assert(m.parted(idx as nat) == m);
    lemma_found(making::joker_ids(m.jokers), idx as int, 0);
}

proof fn lemma_found(ids: Seq<u32>, k: int, from: nat)
    requires
        from <= k < ids.len(),
        forall|a: int, b: int|
            0 <= a < ids.len() && 0 <= b < ids.len() && a != b ==> #[trigger] ids[a]
                != #[trigger] ids[b],
    ensures
        making::found_from(ids, ids[k], from) == Some(k as nat),
    decreases k - from,
{
    if from < k {
        lemma_found(ids, k, from + 1);
    }
}

// ---- rerolls -------------------------------------------------------------

/// A reroll takes its cost, and the next one costs a dollar more; while there are
/// free rerolls it costs nothing and there is one less of them.
pub proof fn law_rerolls_cost_a_dollar_more(m: RunModel)
    requires
        0 <= m.reroll.free < 1000,
        0 <= m.reroll.cost <= 1_000_000,
        0 <= m.reroll.base_cost <= 1_000_000,
        0 <= m.reroll.increase <= 1_000_000,
        m.reroll.temp_cost is None,
        m.purse.dollars >= 0,
    ensures
        ({
            let after = m.reroll_paid();
            &&& after.purse.dollars == m.purse.dollars - m.reroll.cost
            &&& m.reroll.free == 0 ==> after.reroll.cost == m.reroll.base_cost + m.reroll.increase
                + 1
            &&& m.reroll.free == 1 ==> after.reroll.cost == m.reroll.base_cost + m.reroll.increase
                && after.reroll.free == 0
            &&& m.reroll.free > 1 ==> after.reroll.cost == 0 && after.reroll.free == m.reroll.free
                - 1
        }),
{
    reveal(RunModel::reroll_priced);
}

// ---- vouchers ------------------------------------------------------------

/// What the vouchers do that change what a run has: hands, discards, the size of
/// the hand, the slots, prices, interest and rerolls.
#[verifier::rlimit(40)]
pub proof fn law_what_vouchers_do(m: RunModel, key: Seq<char>)
    requires
        0 <= m.limits.hands < 1000,
        0 <= m.limits.discards < 1000,
        0 <= m.round.hands_left < 1000,
        0 <= m.round.discards_left < 1000,
        0 <= m.round.hand_size < 1000,
        m.limits.joker_slots < 1000,
        m.limits.consumable_slots < 1000,
        0 <= m.reroll.base_cost < 1000,
        0 <= m.reroll.cost < 1000,
        -1000 < m.track.ante < 1000,
        -1000 < m.track.blind_ante < 1000,
    ensures
        ({
            let n = m.voucher_used(key);
            let hands = |k: int|
                n.limits.hands == m.limits.hands + k && n.round.hands_left == m.round.hands_left
                    + k;
            let discards = |k: int|
                n.limits.discards == m.limits.discards + k && n.round.discards_left
                    == m.round.discards_left + k;
            let back = n.track.ante == m.track.ante - 1 && n.track.blind_ante
                == m.track.blind_ante - 1;
            &&& key == "v_grabber"@ || key == "v_nacho_tong"@ ==> hands(1) && discards(0)
            &&& key == "v_wasteful"@ || key == "v_recyclomancy"@ ==> hands(0) && discards(1)
            &&& key == "v_paint_brush"@ || key == "v_palette"@ ==> n.round.hand_size
                == m.round.hand_size + 1
            &&& key == "v_antimatter"@ ==> n.limits.joker_slots == m.limits.joker_slots + 1
            &&& key == "v_crystal_ball"@ ==> n.limits.consumable_slots
                == m.limits.consumable_slots + 1
            &&& key == "v_clearance_sale"@ ==> n.purse.discount_percent == 25
            &&& key == "v_liquidation"@ ==> n.purse.discount_percent == 50
            &&& key == "v_seed_money"@ ==> n.purse.interest_cap == 50
            &&& key == "v_money_tree"@ ==> n.purse.interest_cap == 100
            &&& key == "v_reroll_surplus"@ || key == "v_reroll_glut"@ ==> n.reroll.base_cost
                == m.reroll.base_cost - 2 && n.reroll.cost == (if m.reroll.cost < 2 {
                0
            } else {
                m.reroll.cost - 2
            })
            &&& key == "v_hieroglyph"@ ==> back && hands(-1) && discards(0)
            &&& key == "v_petroglyph"@ ==> back && hands(0) && discards(-1)
        }),
{
    lemma_voucher_marks();
    reveal(RunModel::voucher_applied);
}

/// What the vouchers do that change what the shop offers.
#[verifier::rlimit(40)]
pub proof fn law_vouchers_for_the_shop(m: RunModel, key: Seq<char>)
    ensures
        ({
            let r = m.voucher_used(key).rates;
            &&& key == "v_tarot_merchant"@ ==> r.tarot == Double::frac(96, 10)
            &&& key == "v_tarot_tycoon"@ ==> r.tarot == Double::of(32)
            &&& key == "v_planet_merchant"@ ==> r.planet == Double::frac(96, 10)
            &&& key == "v_planet_tycoon"@ ==> r.planet == Double::of(32)
            &&& key == "v_hone"@ ==> r.edition == Double::of(2)
            &&& key == "v_glow_up"@ ==> r.edition == Double::of(4)
            &&& key == "v_magic_trick"@ || key == "v_illusion"@ ==> r.playing_card == Double::of(4)
            &&& key == "v_telescope"@ || key == "v_observatory"@ || key == "v_omen_globe"@ || key
                == "v_blank"@ || key == "v_directors_cut"@ || key == "v_retcon"@ ==> r == m.rates
        }),
{
    lemma_voucher_marks();
    reveal(RunModel::voucher_applied);
}

/// A redeemed voucher is paid for and does what it does.
#[verifier::rlimit(40)]
pub proof fn law_vouchers_are_paid_for(m: RunModel, slot: usize)
    requires
        m.voucher_redeemed(slot).refusal is None,
    ensures
        m.shop is Some && slot < m.shop->0.vouchers.len(),
        ({
            let key = m.shop->0.vouchers[slot as int].key@;
            let price = m.voucher_price(key);
            let base = m.voucher_redeemed(slot).run;
            &&& price <= m.purse.dollars.wrapping_sub(m.purse.bankrupt_at)
            &&& key == "v_grabber"@ || key == "v_wasteful"@ || key == "v_blank"@
                ==> base.purse.dollars == m.purse.dollars.wrapping_sub(price)
                && base.used_vouchers.dom().contains(key) && base.shop is Some
                && base.shop->0.vouchers == m.shop->0.vouchers.remove(slot as int)
        }),
{
    reveal(RunModel::voucher_redeemed);
    reveal(RunModel::voucher_applied);
    lemma_voucher_marks();
}

// ---- tags ----------------------------------------------------------------

/// What the tags pay that act at once.
#[verifier::rlimit(40)]
pub proof fn law_what_tags_pay(m: RunModel, tag: RunTag)
    requires
        0 <= m.purse.dollars < 1_000_000_000,
        0 <= m.record.skips < 1_000_000,
        0 <= m.record.unused_discards < 1_000_000_000,
        0 <= m.record.hands_played_total < 1_000_000_000,
    ensures
        ({
            let gain = m.tag_applied(tag, TagContext::Immediate).1.purse.dollars - m.purse.dollars;
            let acts = m.tag_applied(tag, TagContext::Immediate).0;
            &&& tag.key@ == "tag_skip"@ ==> acts && gain == 5 * m.record.skips
            &&& tag.key@ == "tag_garbage"@ ==> acts && gain == m.record.unused_discards
            &&& tag.key@ == "tag_handy"@ ==> acts && gain == m.record.hands_played_total
            &&& tag.key@ == "tag_economy"@ ==> acts && gain == (if m.purse.dollars > 40 {
                40
            } else {
                m.purse.dollars as int
            })
        }),
{
    reveal(RunModel::tag_applied);
    lemma_tag_marks();
}

/// An Orbital Tag raises its hand by three levels, a Juggle Tag makes the hand of
/// the next round three cards larger, a D6 Tag has rerolls start at nothing, and a
/// Coupon Tag makes all goods of the shop free.
#[verifier::rlimit(40)]
pub proof fn law_what_tags_do(m: RunModel, tag: RunTag)
    requires
        0 <= m.round.hand_size < 1000,
        m.round.temp_handsize is None,
    ensures
        tag.key@ == "tag_orbital"@ && tag.orbital_hand is Some ==> m.tag_applied(
            tag,
            TagContext::Immediate,
        ).1.record.hands == m.record.hands.leveled_up(tag.orbital_hand->0, 3),
        tag.key@ == "tag_juggle"@ ==> ({
            let after = m.tag_applied(tag, TagContext::RoundStartBonus).1;
            after.round.hand_size == m.round.hand_size + 3 && after.round.temp_handsize == Some(
                3i64,
            )
        }),
        tag.key@ == "tag_d_six"@ && !m.offers.shop_d6ed && m.reroll.free == 0 && m.reroll.increase
            == 0 ==> m.tag_applied(tag, TagContext::ShopStart).1.reroll.cost == 0,
        tag.key@ == "tag_coupon"@ && !m.offers.shop_free && m.shop is Some ==> ({
            let after = m.tag_applied(tag, TagContext::ShopFinalPass).1;
            &&& after.shop is Some && after.shop->0.jokers.len() == m.shop->0.jokers.len()
            &&& forall|i: int|
                0 <= i < m.shop->0.jokers.len() ==> (#[trigger] after.shop->0.jokers[i]).couponed
            &&& forall|i: int|
                0 <= i < m.shop->0.packs.len() ==> (#[trigger] after.shop->0.packs[i]).couponed
        }),
{
    reveal(RunModel::tag_applied);
    reveal(RunModel::reroll_priced);
    lemma_tag_marks();
}

proof fn lemma_no_doubles(tags: Seq<RunTag>, n: nat)
    requires
        n <= tags.len(),
        forall|i: int| 0 <= i < tags.len() ==> (#[trigger] tags[i]).key@ != "tag_double"@,
    ensures
        round::tags_but(tags, "tag_double"@, n) == tags.take(n as int),
    decreases n,
{
    if n > 0 {
        lemma_no_doubles(tags, (n - 1) as nat);
        assert(tags.take(n as int) =~= tags.take(n - 1).push(tags[n - 1]));
    } else {
        assert(tags.take(0) =~= seq![]);
    }
}

/// A tag is put with the others; where a Double Tag waits, the tag comes twice and
/// the Double Tag goes.
pub proof fn law_double_tags_double(m: RunModel, key: &'static str, hand: Option<HandType>)
    requires
        forall|i: int| 0 <= i < m.tags.len() ==> (#[trigger] m.tags[i]).key@ != "tag_double"@,
        key@ != "tag_double"@,
    ensures
        m.with_tag(key, hand).tags == m.tags.push(RunTag { key, orbital_hand: hand }),
        ({
            let doubled = m.with_tag("tag_double", None).with_tag(key, hand).tags;
            let tag = RunTag { key, orbital_hand: hand };
            doubled == m.tags.push(tag).push(tag)
        }),
{
    let tag = RunTag { key, orbital_hand: hand };
    lemma_no_doubles(m.tags, m.tags.len());
    assert(m.tags.take(m.tags.len() as int) =~= m.tags);
    assert(m.tags + crate::tags::repeated(tag, 1) =~= m.tags.push(tag));
    let d = m.with_tag("tag_double", None);
    let n = m.tags.len();
    assert(round::tags_but(d.tags, "tag_double"@, n) == m.tags) by {
        lemma_same_but(d.tags, m.tags, n);
    }
    assert(round::tags_but(d.tags, "tag_double"@, n + 1) == m.tags);
    assert(m.tags + crate::tags::repeated(tag, 2) =~= m.tags.push(tag).push(tag));
}

proof fn lemma_same_but(a: Seq<RunTag>, b: Seq<RunTag>, n: nat)
    requires
        n <= a.len(),
        n <= b.len(),
        forall|i: int| 0 <= i < n ==> #[trigger] a[i] == b[i],
        forall|i: int| 0 <= i < b.len() ==> (#[trigger] b[i]).key@ != "tag_double"@,
    ensures
        round::tags_but(a, "tag_double"@, n) == b.take(n as int),
    decreases n,
{
    if n > 0 {
        lemma_same_but(a, b, (n - 1) as nat);
        assert(b.take(n as int) =~= b.take(n - 1).push(b[n - 1]));
    } else {
        assert(b.take(0) =~= seq![]);
    }
    if n == b.len() {
        assert(b.take(n as int) =~= b);
    }
}

// ---- packs ---------------------------------------------------------------

/// What packs hold: normal ones cost 4 dollars, jumbo ones 6 and mega ones 8; they hold
/// three, five and five cards, and Buffoon and Spectral packs two, four and four. One
/// may be taken, of a mega pack two.
pub proof fn law_what_packs_hold(i: int)
    requires
        0 <= i < 32,
    ensures
        ({
            let b = registry::booster(i);
            let few = b.kind == items::PackKind::Buffoon || b.kind == items::PackKind::Spectral;
            &&& b.cost == 4 || b.cost == 6 || b.cost == 8
            &&& b.cards == (if b.cost == 4 {
                if few {
                    2
                } else {
                    3usize
                }
            } else {
                if few {
                    4
                } else {
                    5
                }
            })
            &&& b.choose == (if b.cost == 8 {
                2u8
            } else {
                1
            })
        }),
{
    reveal(registry::booster);
}

/// Whether an item is of the kind that a pack holds.
pub open spec fn belongs(kind: items::PackKind, item: PackItem) -> bool {
    match kind {
        items::PackKind::Buffoon => item is Joker,
        items::PackKind::Standard => item is PlayingCard,
        items::PackKind::Arcana => item is Consumable,
        items::PackKind::Celestial => item is Consumable,
        items::PackKind::Spectral => item is Consumable,
    }
}

proof fn lemma_filled(m: RunModel, kind: items::PackKind, n: nat)
    ensures
        m.pack_filled(kind, n).0.len() == n,
        forall|i: int|
            0 <= i < n ==> belongs(kind, #[trigger] m.pack_filled(kind, n).0[i]),
    decreases n,
{
    reveal(RunModel::pack_card);
    reveal(RunModel::standard_card);
    if n > 0 {
        lemma_filled(m, kind, (n - 1) as nat);
    }
}

/// An opened pack holds as many items as it says, of its kind, and lets as many be
/// taken.
pub proof fn law_opened_packs_hold_their_items(
    m: RunModel,
    key: &'static str,
    back: crate::shop::PackReturn,
)
    requires
        items::booster_named(key@) is Some,
    ensures
        ({
            let meta = items::booster_named(key@)->0;
            let run = m.pack_opened(key, back);
            &&& run.state == State::PackOpen
            &&& run.pack is Some
            &&& run.pack->0.items.len() == meta.cards
            &&& run.pack->0.choices_left == meta.choose
            &&& run.pack->0.return_to == back
            &&& forall|i: int|
                0 <= i < run.pack->0.items.len() ==> belongs(
                    meta.kind,
                    #[trigger] run.pack->0.items[i],
                )
        }),
{
    reveal(RunModel::pack_opened);
    let meta = items::booster_named(key@)->0;
    lemma_filled(m, meta.kind, meta.cards as nat);
}

/// What is taken from a pack leaves one choice less; with the last choice the pack is
/// closed.
pub proof fn law_packs_count_choices(m: RunModel)
    requires
        m.pack is Some,
        m.pack->0.return_to == crate::shop::PackReturn::Shop,
    ensures
        m.pack->0.choices_left > 1 && m.pack->0.items.len() > 0 ==> m.choice_made().pack is Some
            && m.choice_made().pack->0.choices_left == m.pack->0.choices_left - 1
            && m.choice_made().pack->0.items == m.pack->0.items && m.choice_made().state == m.state,
        m.pack->0.choices_left <= 1 ==> m.choice_made().pack is None && m.choice_made().state
            == State::Shop,
{
    reveal(RunModel::pack_finished);
    lemma_released_pack(
        RunModel { pack: None, ..m },
        m.pack->0.items,
        m.pack->0.items.len(),
    );
}

proof fn lemma_released_pack(m: RunModel, items: Seq<PackItem>, n: nat)
    ensures
        m.pack_released(items, n).pack == m.pack,
        m.pack_released(items, n).state == m.state,
    decreases n,
{
    if n > 0 {
        lemma_released_pack(m, items, (n - 1) as nat);
    }
}

// ---- editions and seals --------------------------------------------------

/// How a poll decides on an edition: the rarest of those whose bar it passes, the bars
/// being 3, 6, 20 and 40 in a thousand from the top, and 25 times as much where an
/// edition is sure.
pub proof fn law_polls_decide_on_editions(poll: Double, x: Double, no_neg: bool, rate: Double)
    ensures
        ({
            let above = |n: nat, f: Double|
                Double::of(1).minus(Double::frac(n, 1000).times(f)).below(poll);
            let rated = |n: nat|
                Double::of(1).minus(Double::frac(n, 1000).times(rate).times(x)).below(poll);
            let usual = items::polled_edition(poll, x, no_neg, false, rate);
            let sure = items::polled_edition(poll, x, no_neg, true, rate);
            let big = Double::of(25);
            &&& !no_neg && above(3, x) ==> usual == Edition::Negative
            &&& (no_neg || !above(3, x)) && rated(6) ==> usual == Edition::Polychrome
            &&& (no_neg || !above(3, x)) && !rated(6) && rated(20) ==> usual == Edition::Holo
            &&& (no_neg || !above(3, x)) && !rated(6) && !rated(20) && rated(40) ==> usual
                == Edition::Foil
            &&& (no_neg || !above(3, x)) && !rated(6) && !rated(20) && !rated(40) ==> usual
                == Edition::Plain
            &&& !no_neg && above(3, big) ==> sure == Edition::Negative
            &&& no_neg && above(6, big) ==> sure == Edition::Polychrome
            &&& !above(3, big) && !above(6, big) && above(20, big) ==> sure == Edition::Holo
            &&& !above(3, big) && !above(6, big) && !above(20, big) && above(40, big) ==> sure
                == Edition::Foil
        }),
{
    reveal(items::polled_edition);
}

} // verus!
