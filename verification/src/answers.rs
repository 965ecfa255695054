//! Which actions a run accepts, and what a refusal leaves.
use crate::cards::Edition;
use crate::double::Double;
use crate::handeval::lemma_distinct_places;
use crate::items;
use crate::items::ConsumableSet;
use crate::registry;
use crate::run::{Action, BlindStage, RunModel, State, Turn};
use crate::shop::{PackItem, PackOffer, ShopItem, VoucherOffer};
use crate::tarots;
use vstd::prelude::*;

verus! {

// ---- consumables ---------------------------------------------------------

proof fn lemma_tarot_effect(m: RunModel, k: int, targets: Seq<usize>)
    requires
        0 <= k < 22,
    ensures
        m.effect(registry::tarot(k).key@, targets) is Some,
{
    reveal(registry::tarot);
    reveal(RunModel::target_effect);
    reveal(RunModel::hand_effect);
    reveal(RunModel::wealth_effect);
    reveal(RunModel::joker_effect);
}

proof fn lemma_spectral_effect(m: RunModel, k: int, targets: Seq<usize>)
    requires
        0 <= k < 18,
    ensures
        m.effect(registry::spectral(k).key@, targets) is Some,
{
    reveal(registry::spectral);
    reveal(RunModel::target_effect);
    reveal(RunModel::hand_effect);
    reveal(RunModel::joker_effect);
    reveal(RunModel::level_effect);
}

proof fn lemma_planet_hand(k: int)
    requires
        0 <= k < 12,
    ensures
        items::planet_hand(registry::planet(k).key@) is Some,
{
    reveal(registry::planet);
}

/// Every consumable has an effect.
pub proof fn law_every_consumable_has_an_effect(m: RunModel, key: Seq<char>, targets: Seq<usize>)
    requires
        items::consumable_named(key) is Some,
    ensures
        m.effect(key, targets) is Some,
{
    lemma_tarot_row(key, 0);
    lemma_planet_row(key, 0);
    lemma_spectral_row(key, 0);
    match tarots::set_of(key) {
        ConsumableSet::Tarot => {
            let k = choose|k: int| 0 <= k < 22 && (#[trigger] registry::tarot(k)).key@ == key;
            lemma_tarot_effect(m, k, targets);
        },
        ConsumableSet::Planet => {
            let k = choose|k: int| 0 <= k < 12 && (#[trigger] registry::planet(k)).key@ == key;
            lemma_planet_hand(k);
            reveal(RunModel::level_effect);
        },
        ConsumableSet::Spectral => {
            let k = choose|k: int| 0 <= k < 18 && (#[trigger] registry::spectral(k)).key@ == key;
            lemma_spectral_effect(m, k, targets);
        },
    }
}

/// A consumable that nothing stands in the way of can be used up.
pub proof fn law_usable_consumables_work(
    m: RunModel,
    x: RunModel,
    key: &'static str,
    targets: Seq<usize>,
)
    requires
        m.unusable(key@, targets) is None,
    ensures
        x.used_up(key, targets).refusal is None,
{
    reveal(RunModel::unusable);
    reveal(RunModel::used);
    law_every_consumable_has_an_effect(x.use_counted(key@), key@, targets);
}

/// What is refused leaves the run as it was.
pub proof fn law_refusals_change_nothing(
    m: RunModel,
    i: usize,
    cards: Seq<usize>,
    and_use: bool,
    amount: Double,
)
    ensures
        m.blind_selected(amount).refusal is Some ==> m.blind_selected(amount).run == m,
        m.skip().refusal is Some ==> m.skip().run == m,
        m.reroll_boss().refusal is Some ==> m.reroll_boss().run == m,
        m.play(cards).refusal is Some ==> m.play(cards).run == m,
        m.discard(cards).refusal is Some ==> m.discard(cards).run == m,
        m.cashed_out().refusal is Some ==> m.cashed_out().run == m,
        m.item_bought(i, and_use, cards).refusal is Some ==> m.item_bought(i, and_use, cards).run
            == m,
        m.voucher_redeemed(i).refusal is Some ==> m.voucher_redeemed(i).run == m,
        m.pack_bought(i).refusal is Some ==> m.pack_bought(i).run == m,
        m.shop_rerolled().refusal is Some ==> m.shop_rerolled().run == m,
        m.shop_left().refusal is Some ==> m.shop_left().run == m,
        m.consumable_used(i, cards).refusal is Some ==> m.consumable_used(i, cards).run == m,
        m.consumable_sold(i).refusal is Some ==> m.consumable_sold(i).run == m,
        m.joker_sold(i).refusal is Some ==> m.joker_sold(i).run == m,
        m.pack_picked(i, cards).refusal is Some ==> m.pack_picked(i, cards).run == m,
        m.pack_skipped().refusal is Some ==> m.pack_skipped().run == m,
{
    lemma_course_refused(m, amount);
    lemma_hands_refused(m, cards);
    lemma_trade_refused(m, i);
    lemma_item_refused(m, i, and_use, cards);
    lemma_use_refused(m, i, cards);
    lemma_pick_refused(m, i, cards);
}

/// Whether a refusal left a run as it was.
spec fn kept(m: RunModel, t: Turn) -> bool {
    t.refusal is Some ==> t.run == m
}

proof fn lemma_course_refused(m: RunModel, amount: Double)
    ensures
        kept(m, m.blind_selected(amount)),
        kept(m, m.skip()),
        kept(m, m.reroll_boss()),
        kept(m, m.cashed_out()),
        kept(m, m.shop_rerolled()),
        kept(m, m.shop_left()),
        kept(m, m.pack_skipped()),
{
    assert(kept(m, m.skip())) by {
        reveal(RunModel::skip);
    }
    assert(kept(m, m.reroll_boss())) by {
        reveal(RunModel::reroll_boss);
    }
    assert(kept(m, m.blind_selected(amount))) by {
        reveal(RunModel::blind_selected);
    }
    assert(kept(m, m.cashed_out())) by {
        reveal(RunModel::cashed_out);
    }
    assert(kept(m, m.shop_rerolled())) by {
        reveal(RunModel::shop_rerolled);
    }
    assert(kept(m, m.shop_left())) by {
        reveal(RunModel::shop_left);
    }
    assert(kept(m, m.pack_skipped())) by {
        reveal(RunModel::pack_skipped);
    }
}

proof fn lemma_hands_refused(m: RunModel, cards: Seq<usize>)
    ensures
        kept(m, m.play(cards)),
        kept(m, m.discard(cards)),
{
    reveal(RunModel::play);
    reveal(RunModel::discard);
}

proof fn lemma_trade_refused(m: RunModel, i: usize)
    ensures
        kept(m, m.voucher_redeemed(i)),
        kept(m, m.pack_bought(i)),
        kept(m, m.consumable_sold(i)),
        kept(m, m.joker_sold(i)),
{
    assert(kept(m, m.voucher_redeemed(i))) by {
        reveal(RunModel::voucher_redeemed);
    }
    assert(kept(m, m.pack_bought(i))) by {
        reveal(RunModel::pack_bought);
    }
    assert(kept(m, m.consumable_sold(i))) by {
        reveal(RunModel::consumable_sold);
    }
    assert(kept(m, m.joker_sold(i))) by {
        reveal(RunModel::joker_sold);
    }
}

proof fn lemma_item_refused(m: RunModel, i: usize, and_use: bool, targets: Seq<usize>)
    ensures
        m.item_bought(i, and_use, targets).refusal is Some ==> m.item_bought(
            i,
            and_use,
            targets,
        ).run == m,
{
    reveal(RunModel::item_bought);
    assert forall|x: RunModel, key: &'static str|
        m.unusable(key@, targets) is None implies (#[trigger] x.used_up(
        key,
        targets,
    )).refusal is None by {
        law_usable_consumables_work(m, x, key, targets);
    }
}

proof fn lemma_use_refused(m: RunModel, i: usize, targets: Seq<usize>)
    ensures
        m.consumable_used(i, targets).refusal is Some ==> m.consumable_used(i, targets).run == m,
{
    reveal(RunModel::consumable_used);
    assert forall|x: RunModel, key: &'static str|
        m.unusable(key@, targets) is None implies (#[trigger] x.used_up(
        key,
        targets,
    )).refusal is None by {
        law_usable_consumables_work(m, x, key, targets);
    }
}

proof fn lemma_pick_refused(m: RunModel, i: usize, targets: Seq<usize>)
    ensures
        m.pack_picked(i, targets).refusal is Some ==> m.pack_picked(i, targets).run == m,
{
    reveal(RunModel::pack_picked);
    assert forall|x: RunModel, key: &'static str|
        m.unusable(key@, targets) is None implies (#[trigger] x.used_up(
        key,
        targets,
    )).refusal is None by {
        law_usable_consumables_work(m, x, key, targets);
    }
}

// ---- the list of actions -------------------------------------------------

broadcast proof fn lemma_push_contains<A>(s: Seq<A>, x: A, a: A)
    ensures
        #[trigger] s.push(x).contains(a) <==> s.contains(a) || a == x,
{
    if s.contains(a) {
        let i = choose|i: int| 0 <= i < s.len() && s[i] == a;
        assert(s.push(x)[i] == a);
    }
    if a == x {
        assert(s.push(x)[s.len() as int] == a);
    }
}

broadcast proof fn lemma_add_contains<A>(s: Seq<A>, t: Seq<A>, a: A)
    ensures
        #[trigger] (s + t).contains(a) <==> s.contains(a) || t.contains(a),
{
    if s.contains(a) {
        let i = choose|i: int| 0 <= i < s.len() && s[i] == a;
        assert((s + t)[i] == a);
    }
    if t.contains(a) {
        let i = choose|i: int| 0 <= i < t.len() && t[i] == a;
        assert((s + t)[s.len() + i] == a);
    }
    if (s + t).contains(a) {
        let i = choose|i: int| 0 <= i < (s + t).len() && (s + t)[i] == a;
        if i < s.len() {
            assert(s[i] == a);
        } else {
            assert(t[i - s.len()] == a);
        }
    }
}

broadcast proof fn lemma_only_if(b: bool, x: Action, a: Action)
    ensures
        #[trigger] RunModel::only_if(b, x).contains(a) <==> b && a == x,
{
    if b {
        assert(RunModel::only_if(b, x)[0] == x);
    }
}

broadcast proof fn lemma_single(x: Action, a: Action)
    ensures
        #[trigger] seq![x].contains(a) <==> a == x,
{
    assert(seq![x][0] == x);
}

broadcast proof fn lemma_joker_sales(m: RunModel, n: nat, a: Action)
    requires
        n <= usize::MAX,
    ensures
        #[trigger] m.joker_sales(n).contains(a) <==> (a matches Action::SellJoker(i) && i < n),
    decreases n,
{
    broadcast use lemma_push_contains;

    if n > 0 {
        lemma_joker_sales(m, (n - 1) as nat, a);
    }
}

broadcast proof fn lemma_consumable_choices(m: RunModel, n: nat, a: Action)
    requires
        n <= usize::MAX,
    ensures
        #[trigger] m.consumable_choices(n).contains(a) <==> match a {
            Action::SellConsumable(i) => i < n,
            Action::UseConsumable(i) => i < n && m.has_use(m.consumables[i as int].key@),
            _ => false,
        },
    decreases n,
{
    broadcast use lemma_push_contains;

    if n > 0 {
        lemma_consumable_choices(m, (n - 1) as nat, a);
    }
}

broadcast proof fn lemma_item_choices(m: RunModel, list: Seq<ShopItem>, n: nat, a: Action)
    requires
        n <= usize::MAX,
    ensures
        #[trigger] m.item_choices(list, n).contains(a) <==> match a {
            Action::BuyShopItem(i) => i < n && m.affords(m.item_price(list[i as int])) && m.fits(
                list[i as int],
            ),
            Action::BuyAndUseShopItem(i) => i < n && m.affords(m.item_price(list[i as int]))
                && m.fits(list[i as int]) && list[i as int].consumable(),
            _ => false,
        },
    decreases n,
{
    broadcast use lemma_push_contains;

    if n > 0 {
        lemma_item_choices(m, list, (n - 1) as nat, a);
    }
}

broadcast proof fn lemma_voucher_choices(m: RunModel, list: Seq<VoucherOffer>, n: nat, a: Action)
    requires
        n <= usize::MAX,
    ensures
        #[trigger] m.voucher_choices(list, n).contains(a) <==> (a matches Action::RedeemVoucher(i)
            && i < n && m.affords(m.voucher_price(list[i as int].key@))),
    decreases n,
{
    broadcast use lemma_push_contains;

    if n > 0 {
        lemma_voucher_choices(m, list, (n - 1) as nat, a);
    }
}

broadcast proof fn lemma_pack_choices(m: RunModel, list: Seq<PackOffer>, n: nat, a: Action)
    requires
        n <= usize::MAX,
    ensures
        #[trigger] m.pack_choices(list, n).contains(a) <==> (a matches Action::BuyPack(i) && i < n
            && !list[i as int].used && m.affords(m.pack_price(list[i as int]))),
    decreases n,
{
    broadcast use lemma_push_contains;

    if n > 0 {
        lemma_pack_choices(m, list, (n - 1) as nat, a);
    }
}

broadcast proof fn lemma_pick_choices(m: RunModel, n: nat, a: Action)
    requires
        n <= usize::MAX,
    ensures
        #[trigger] m.pick_choices(n).contains(a) <==> (a matches Action::PickPackItem(i) && i < n
            && m.can_pick(i)),
    decreases n,
{
    broadcast use lemma_push_contains;

    if n > 0 {
        lemma_pick_choices(m, (n - 1) as nat, a);
    }
}

/// Whether the lists of a run are no longer than lists can be.
pub open spec fn fits_in_memory(m: RunModel) -> bool {
    &&& m.hand.len() <= usize::MAX
    &&& m.jokers.len() <= usize::MAX
    &&& m.consumables.len() <= usize::MAX
    &&& m.shop matches Some(shop) ==> shop.jokers.len() <= usize::MAX && shop.vouchers.len()
        <= usize::MAX && shop.packs.len() <= usize::MAX
    &&& m.pack matches Some(pack) ==> pack.items.len() <= usize::MAX
}

impl RunModel {
    /// What comes of an action that takes no cards.
    pub open spec fn answer(self, a: Action, amount: Double) -> Option<Turn> {
        match a {
            Action::SelectBlind => Some(self.blind_selected(amount)),
            Action::SkipBlind => Some(self.skip()),
            Action::RerollBoss => Some(self.reroll_boss()),
            Action::CashOut => Some(self.cashed_out()),
            Action::BuyShopItem(i) => Some(self.item_bought(i, false, seq![])),
            Action::RedeemVoucher(i) => Some(self.voucher_redeemed(i)),
            Action::BuyPack(i) => Some(self.pack_bought(i)),
            Action::Reroll => Some(self.shop_rerolled()),
            Action::LeaveShop => Some(self.shop_left()),
            Action::SellConsumable(i) => Some(self.consumable_sold(i)),
            Action::SellJoker(i) => Some(self.joker_sold(i)),
            Action::SkipPack => Some(self.pack_skipped()),
            _ => None,
        }
    }

    /// What the state of a run lists beyond what is owned.
    pub open spec fn state_lists(self, a: Action) -> bool {
        match a {
            Action::SelectBlind => self.state == State::BlindSelect,
            Action::SkipBlind => self.state == State::BlindSelect && self.track.blind_on_deck
                != BlindStage::Boss,
            Action::RerollBoss => self.state == State::BlindSelect && self.can_reroll_boss(),
            Action::Play => self.state == State::SelectingHand,
            Action::Discard => self.state == State::SelectingHand && self.round.discards_left > 0,
            Action::CashOut => self.state == State::RoundEval,
            Action::LeaveShop => self.state == State::Shop,
            Action::Reroll => self.state == State::Shop && self.rerollable(),
            Action::SkipPack => self.state == State::PackOpen,
            Action::PickPackItem(i) => self.state == State::PackOpen && self.pack is Some && i
                < self.pack->0.items.len() && self.can_pick(i),
            _ => self.state == State::Shop && self.shop_choices().contains(a),
        }
    }
}

proof fn lemma_choices(m: RunModel, a: Action)
    requires
        fits_in_memory(m),
    ensures
        m.choices().contains(a) <==> m.state_lists(a) || (m.selling() && m.own_choices().contains(
            a,
        )),
{
    broadcast use {
        lemma_add_contains,
        lemma_only_if,
        lemma_single,
        lemma_joker_sales,
        lemma_consumable_choices,
        lemma_item_choices,
        lemma_voucher_choices,
        lemma_pack_choices,
        lemma_pick_choices,
    };

    reveal(RunModel::choices);
}

impl RunModel {
    /// What stands to be bought or sold.
    pub open spec fn open_to(self, a: Action) -> bool {
        match a {
            Action::BuyShopItem(i) => self.state == State::Shop && self.shop is Some && i
                < self.shop->0.jokers.len() && self.affords(
                self.item_price(self.shop->0.jokers[i as int]),
            ) && self.fits(self.shop->0.jokers[i as int]),
            Action::RedeemVoucher(i) => self.state == State::Shop && self.shop is Some && i
                < self.shop->0.vouchers.len() && self.affords(
                self.voucher_price(self.shop->0.vouchers[i as int].key@),
            ),
            Action::BuyPack(i) => self.state == State::Shop && self.shop is Some && i
                < self.shop->0.packs.len() && !self.shop->0.packs[i as int].used && self.affords(
                self.pack_price(self.shop->0.packs[i as int]),
            ),
            Action::SellJoker(i) => self.selling() && i < self.jokers.len(),
            Action::SellConsumable(i) => self.selling() && i < self.consumables.len(),
            Action::UseConsumable(i) => self.selling() && i < self.consumables.len()
                && self.has_use(self.consumables[i as int].key@),
            _ => self.state_lists(a),
        }
    }
}

proof fn lemma_listed(m: RunModel, a: Action)
    requires
        fits_in_memory(m),
        !(a is BuyAndUseShopItem),
    ensures
        m.choices().contains(a) <==> m.open_to(a),
{
    lemma_choices(m, a);
    lemma_add_contains(
        m.joker_sales(m.jokers.len()),
        m.consumable_choices(m.consumables.len()),
        a,
    );
    lemma_joker_sales(m, m.jokers.len(), a);
    lemma_consumable_choices(m, m.consumables.len(), a);
    match m.shop {
        Some(shop) => {
            let x = m.item_choices(shop.jokers, shop.jokers.len());
            let y = m.voucher_choices(shop.vouchers, shop.vouchers.len());
            let z = m.pack_choices(shop.packs, shop.packs.len());
            lemma_add_contains(x + y, z, a);
            lemma_add_contains(x, y, a);
            lemma_item_choices(m, shop.jokers, shop.jokers.len(), a);
            lemma_voucher_choices(m, shop.vouchers, shop.vouchers.len(), a);
            lemma_pack_choices(m, shop.packs, shop.packs.len(), a);
        },
        None => {},
    }
}

proof fn lemma_purchases(m: RunModel, i: usize)
    ensures
        m.item_bought(i, false, seq![]).refusal is None <==> m.open_to(Action::BuyShopItem(i)),
        m.voucher_redeemed(i).refusal is None <==> m.open_to(Action::RedeemVoucher(i)),
        m.pack_bought(i).refusal is None <==> m.open_to(Action::BuyPack(i)),
{
    reveal(RunModel::item_bought);
    reveal(RunModel::voucher_redeemed);
    reveal(RunModel::pack_bought);
    if m.shop is Some && i < m.shop->0.vouchers.len() {
        items::law_prices_are_positive(
            items::base_cost_of(m.shop->0.vouchers[i as int].key@),
            Edition::Plain,
            m.purse.discount_percent,
        );
    }
}

proof fn lemma_sales(m: RunModel, i: usize)
    ensures
        m.consumable_sold(i).refusal is None <==> m.open_to(Action::SellConsumable(i)),
        m.joker_sold(i).refusal is None <==> m.open_to(Action::SellJoker(i)),
{
    reveal(RunModel::consumable_sold);
    reveal(RunModel::joker_sold);
}

proof fn lemma_moves(m: RunModel, amount: Double)
    ensures
        m.blind_selected(amount).refusal is None <==> m.open_to(Action::SelectBlind),
        m.skip().refusal is None <==> m.open_to(Action::SkipBlind),
        m.reroll_boss().refusal is None <==> m.open_to(Action::RerollBoss),
        m.cashed_out().refusal is None <==> m.open_to(Action::CashOut),
        m.shop_rerolled().refusal is None <==> m.open_to(Action::Reroll),
        m.shop_left().refusal is None <==> m.open_to(Action::LeaveShop),
        m.pack_skipped().refusal is None <==> m.open_to(Action::SkipPack),
{
    assert(m.skip().refusal is None <==> m.open_to(Action::SkipBlind)) by {
        reveal(RunModel::skip);
    }
    assert(m.reroll_boss().refusal is None <==> m.open_to(Action::RerollBoss)) by {
        reveal(RunModel::reroll_boss);
    }
    assert(m.blind_selected(amount).refusal is None <==> m.open_to(Action::SelectBlind)) by {
        reveal(RunModel::blind_selected);
    }
    assert(m.cashed_out().refusal is None <==> m.open_to(Action::CashOut)) by {
        reveal(RunModel::cashed_out);
    }
    assert(m.shop_rerolled().refusal is None <==> m.open_to(Action::Reroll)) by {
        reveal(RunModel::shop_rerolled);
    }
    assert(m.shop_left().refusal is None <==> m.open_to(Action::LeaveShop)) by {
        reveal(RunModel::shop_left);
    }
    assert(m.pack_skipped().refusal is None <==> m.open_to(Action::SkipPack)) by {
        reveal(RunModel::pack_skipped);
    }
}

/// An action that takes no cards is listed exactly if it is accepted.
pub proof fn law_listed_actions_are_accepted(m: RunModel, a: Action, amount: Double)
    requires
        fits_in_memory(m),
        m.answer(a, amount) is Some,
    ensures
        m.choices().contains(a) <==> m.answer(a, amount)->0.refusal is None,
{
    lemma_listed(m, a);
    lemma_moves(m, amount);
    match a {
        Action::BuyShopItem(i) => lemma_purchases(m, i),
        Action::RedeemVoucher(i) => lemma_purchases(m, i),
        Action::BuyPack(i) => lemma_purchases(m, i),
        Action::SellConsumable(i) => lemma_sales(m, i),
        Action::SellJoker(i) => lemma_sales(m, i),
        _ => {},
    }
}

/// The first places of a hand.
pub open spec fn first_places(n: nat) -> Seq<usize> {
    Seq::new(n, |i: int| i as usize)
}

/// Whether a consumable is used for itself, without targets or with a target of
/// its own choosing.
spec fn for_itself(key: Seq<char>) -> bool {
    tarots::one_of2(key, "c_high_priestess", "c_emperor") || tarots::one_of3(
        key,
        "c_hermit",
        "c_temperance",
        "c_black_hole",
    ) || tarots::one_of3(key, "c_wheel_of_fortune", "c_ectoplasm", "c_hex") || key == "c_ankh"@
        || key == "c_aura"@ || key == "c_fool"@ || tarots::one_of3(
        key,
        "c_judgement",
        "c_soul",
        "c_wraith",
    )
}

proof fn lemma_tarot_targets(k: int)
    requires
        0 <= k < 22,
        registry::tarot(k).max_highlighted > 0,
    ensures
        tarots::least_targets(registry::tarot(k)) <= tarots::most_targets(registry::tarot(k)),
        !for_itself(registry::tarot(k).key@),
{
    reveal(registry::tarot);
    reveal_strlit("c_high_priestess");
    reveal_strlit("c_emperor");
    reveal_strlit("c_hermit");
    reveal_strlit("c_temperance");
    reveal_strlit("c_black_hole");
    reveal_strlit("c_wheel_of_fortune");
    reveal_strlit("c_ectoplasm");
    reveal_strlit("c_hex");
    reveal_strlit("c_ankh");
    reveal_strlit("c_aura");
    reveal_strlit("c_fool");
    reveal_strlit("c_judgement");
    reveal_strlit("c_soul");
    reveal_strlit("c_wraith");
    reveal_strlit("c_magician");
    reveal_strlit("c_empress");
    reveal_strlit("c_heirophant");
    reveal_strlit("c_lovers");
    reveal_strlit("c_chariot");
    reveal_strlit("c_justice");
    reveal_strlit("c_strength");
    reveal_strlit("c_hanged_man");
    reveal_strlit("c_death");
    reveal_strlit("c_devil");
    reveal_strlit("c_tower");
    reveal_strlit("c_star");
    reveal_strlit("c_moon");
    reveal_strlit("c_sun");
    reveal_strlit("c_world");
    assert("c_high_priestess"@.len() == 16 && "c_high_priestess"@[2] == 'h' && "c_high_priestess"@[3] == 'i' && "c_high_priestess"@[5] == 'h');
    assert("c_emperor"@.len() == 9 && "c_emperor"@[2] == 'e' && "c_emperor"@[3] == 'm' && "c_emperor"@[5] == 'e');
    assert("c_hermit"@.len() == 8 && "c_hermit"@[2] == 'h' && "c_hermit"@[3] == 'e' && "c_hermit"@[5] == 'm');
    assert("c_temperance"@.len() == 12 && "c_temperance"@[2] == 't' && "c_temperance"@[3] == 'e' && "c_temperance"@[5] == 'p');
    assert("c_black_hole"@.len() == 12 && "c_black_hole"@[2] == 'b' && "c_black_hole"@[3] == 'l' && "c_black_hole"@[5] == 'c');
    assert("c_wheel_of_fortune"@.len() == 18 && "c_wheel_of_fortune"@[2] == 'w' && "c_wheel_of_fortune"@[3] == 'h' && "c_wheel_of_fortune"@[5] == 'e');
    assert("c_ectoplasm"@.len() == 11 && "c_ectoplasm"@[2] == 'e' && "c_ectoplasm"@[3] == 'c' && "c_ectoplasm"@[5] == 'o');
    assert("c_hex"@.len() == 5 && "c_hex"@[2] == 'h' && "c_hex"@[3] == 'e');
    assert("c_ankh"@.len() == 6 && "c_ankh"@[2] == 'a' && "c_ankh"@[3] == 'n' && "c_ankh"@[5] == 'h');
    assert("c_aura"@.len() == 6 && "c_aura"@[2] == 'a' && "c_aura"@[3] == 'u' && "c_aura"@[5] == 'a');
    assert("c_fool"@.len() == 6 && "c_fool"@[2] == 'f' && "c_fool"@[3] == 'o' && "c_fool"@[5] == 'l');
    assert("c_judgement"@.len() == 11 && "c_judgement"@[2] == 'j' && "c_judgement"@[3] == 'u' && "c_judgement"@[5] == 'g');
    assert("c_soul"@.len() == 6 && "c_soul"@[2] == 's' && "c_soul"@[3] == 'o' && "c_soul"@[5] == 'l');
    assert("c_wraith"@.len() == 8 && "c_wraith"@[2] == 'w' && "c_wraith"@[3] == 'r' && "c_wraith"@[5] == 'i');
    assert("c_magician"@.len() == 10 && "c_magician"@[2] == 'm' && "c_magician"@[3] == 'a' && "c_magician"@[5] == 'i');
    assert("c_empress"@.len() == 9 && "c_empress"@[2] == 'e' && "c_empress"@[3] == 'm' && "c_empress"@[5] == 'r');
    assert("c_heirophant"@.len() == 12 && "c_heirophant"@[2] == 'h' && "c_heirophant"@[3] == 'e' && "c_heirophant"@[5] == 'r');
    assert("c_lovers"@.len() == 8 && "c_lovers"@[2] == 'l' && "c_lovers"@[3] == 'o' && "c_lovers"@[5] == 'e');
    assert("c_chariot"@.len() == 9 && "c_chariot"@[2] == 'c' && "c_chariot"@[3] == 'h' && "c_chariot"@[5] == 'r');
    assert("c_justice"@.len() == 9 && "c_justice"@[2] == 'j' && "c_justice"@[3] == 'u' && "c_justice"@[5] == 't');
    assert("c_strength"@.len() == 10 && "c_strength"@[2] == 's' && "c_strength"@[3] == 't' && "c_strength"@[5] == 'e');
    assert("c_hanged_man"@.len() == 12 && "c_hanged_man"@[2] == 'h' && "c_hanged_man"@[3] == 'a' && "c_hanged_man"@[5] == 'g');
    assert("c_death"@.len() == 7 && "c_death"@[2] == 'd' && "c_death"@[3] == 'e' && "c_death"@[5] == 't');
    assert("c_devil"@.len() == 7 && "c_devil"@[2] == 'd' && "c_devil"@[3] == 'e' && "c_devil"@[5] == 'i');
    assert("c_tower"@.len() == 7 && "c_tower"@[2] == 't' && "c_tower"@[3] == 'o' && "c_tower"@[5] == 'e');
    assert("c_star"@.len() == 6 && "c_star"@[2] == 's' && "c_star"@[3] == 't' && "c_star"@[5] == 'r');
    assert("c_moon"@.len() == 6 && "c_moon"@[2] == 'm' && "c_moon"@[3] == 'o' && "c_moon"@[5] == 'n');
    assert("c_sun"@.len() == 5 && "c_sun"@[2] == 's' && "c_sun"@[3] == 'u');
    assert("c_world"@.len() == 7 && "c_world"@[2] == 'w' && "c_world"@[3] == 'o' && "c_world"@[5] == 'l');
}

proof fn lemma_spectral_targets(k: int)
    requires
        0 <= k < 18,
        registry::spectral(k).max_highlighted > 0,
    ensures
        tarots::least_targets(registry::spectral(k)) <= tarots::most_targets(
            registry::spectral(k),
        ),
        !for_itself(registry::spectral(k).key@),
{
    reveal(registry::spectral);
    reveal_strlit("c_high_priestess");
    reveal_strlit("c_emperor");
    reveal_strlit("c_hermit");
    reveal_strlit("c_temperance");
    reveal_strlit("c_black_hole");
    reveal_strlit("c_wheel_of_fortune");
    reveal_strlit("c_ectoplasm");
    reveal_strlit("c_hex");
    reveal_strlit("c_ankh");
    reveal_strlit("c_aura");
    reveal_strlit("c_fool");
    reveal_strlit("c_judgement");
    reveal_strlit("c_soul");
    reveal_strlit("c_wraith");
    reveal_strlit("c_talisman");
    reveal_strlit("c_deja_vu");
    reveal_strlit("c_trance");
    reveal_strlit("c_medium");
    reveal_strlit("c_cryptid");
    assert("c_high_priestess"@.len() == 16 && "c_high_priestess"@[2] == 'h' && "c_high_priestess"@[3] == 'i' && "c_high_priestess"@[5] == 'h');
    assert("c_emperor"@.len() == 9 && "c_emperor"@[2] == 'e' && "c_emperor"@[3] == 'm' && "c_emperor"@[5] == 'e');
    assert("c_hermit"@.len() == 8 && "c_hermit"@[2] == 'h' && "c_hermit"@[3] == 'e' && "c_hermit"@[5] == 'm');
    assert("c_temperance"@.len() == 12 && "c_temperance"@[2] == 't' && "c_temperance"@[3] == 'e' && "c_temperance"@[5] == 'p');
    assert("c_black_hole"@.len() == 12 && "c_black_hole"@[2] == 'b' && "c_black_hole"@[3] == 'l' && "c_black_hole"@[5] == 'c');
    assert("c_wheel_of_fortune"@.len() == 18 && "c_wheel_of_fortune"@[2] == 'w' && "c_wheel_of_fortune"@[3] == 'h' && "c_wheel_of_fortune"@[5] == 'e');
    assert("c_ectoplasm"@.len() == 11 && "c_ectoplasm"@[2] == 'e' && "c_ectoplasm"@[3] == 'c' && "c_ectoplasm"@[5] == 'o');
    assert("c_hex"@.len() == 5 && "c_hex"@[2] == 'h' && "c_hex"@[3] == 'e');
    assert("c_ankh"@.len() == 6 && "c_ankh"@[2] == 'a' && "c_ankh"@[3] == 'n' && "c_ankh"@[5] == 'h');
    assert("c_aura"@.len() == 6 && "c_aura"@[2] == 'a' && "c_aura"@[3] == 'u' && "c_aura"@[5] == 'a');
    assert("c_fool"@.len() == 6 && "c_fool"@[2] == 'f' && "c_fool"@[3] == 'o' && "c_fool"@[5] == 'l');
    assert("c_judgement"@.len() == 11 && "c_judgement"@[2] == 'j' && "c_judgement"@[3] == 'u' && "c_judgement"@[5] == 'g');
    assert("c_soul"@.len() == 6 && "c_soul"@[2] == 's' && "c_soul"@[3] == 'o' && "c_soul"@[5] == 'l');
    assert("c_wraith"@.len() == 8 && "c_wraith"@[2] == 'w' && "c_wraith"@[3] == 'r' && "c_wraith"@[5] == 'i');
    assert("c_talisman"@.len() == 10 && "c_talisman"@[2] == 't' && "c_talisman"@[3] == 'a' && "c_talisman"@[5] == 'i');
    assert("c_deja_vu"@.len() == 9 && "c_deja_vu"@[2] == 'd' && "c_deja_vu"@[3] == 'e' && "c_deja_vu"@[5] == 'a');
    assert("c_trance"@.len() == 8 && "c_trance"@[2] == 't' && "c_trance"@[3] == 'r' && "c_trance"@[5] == 'n');
    assert("c_medium"@.len() == 8 && "c_medium"@[2] == 'm' && "c_medium"@[3] == 'e' && "c_medium"@[5] == 'i');
    assert("c_cryptid"@.len() == 9 && "c_cryptid"@[2] == 'c' && "c_cryptid"@[3] == 'r' && "c_cryptid"@[5] == 'p');
}

proof fn lemma_aura_key()
    ensures
        !tarots::one_of2("c_aura"@, "c_high_priestess", "c_emperor"),
        !tarots::one_of3("c_aura"@, "c_hermit", "c_temperance", "c_black_hole"),
        !tarots::one_of3("c_aura"@, "c_wheel_of_fortune", "c_ectoplasm", "c_hex"),
        "c_aura"@ != "c_ankh"@,
{
    reveal_strlit("c_high_priestess");
    reveal_strlit("c_emperor");
    reveal_strlit("c_hermit");
    reveal_strlit("c_temperance");
    reveal_strlit("c_black_hole");
    reveal_strlit("c_wheel_of_fortune");
    reveal_strlit("c_ectoplasm");
    reveal_strlit("c_hex");
    reveal_strlit("c_ankh");
    reveal_strlit("c_aura");
    assert("c_high_priestess"@.len() == 16 && "c_high_priestess"@[2] == 'h' && "c_high_priestess"@[3] == 'i' && "c_high_priestess"@[5] == 'h');
    assert("c_emperor"@.len() == 9 && "c_emperor"@[2] == 'e' && "c_emperor"@[3] == 'm' && "c_emperor"@[5] == 'e');
    assert("c_hermit"@.len() == 8 && "c_hermit"@[2] == 'h' && "c_hermit"@[3] == 'e' && "c_hermit"@[5] == 'm');
    assert("c_temperance"@.len() == 12 && "c_temperance"@[2] == 't' && "c_temperance"@[3] == 'e' && "c_temperance"@[5] == 'p');
    assert("c_black_hole"@.len() == 12 && "c_black_hole"@[2] == 'b' && "c_black_hole"@[3] == 'l' && "c_black_hole"@[5] == 'c');
    assert("c_wheel_of_fortune"@.len() == 18 && "c_wheel_of_fortune"@[2] == 'w' && "c_wheel_of_fortune"@[3] == 'h' && "c_wheel_of_fortune"@[5] == 'e');
    assert("c_ectoplasm"@.len() == 11 && "c_ectoplasm"@[2] == 'e' && "c_ectoplasm"@[3] == 'c' && "c_ectoplasm"@[5] == 'o');
    assert("c_hex"@.len() == 5 && "c_hex"@[2] == 'h' && "c_hex"@[3] == 'e');
    assert("c_ankh"@.len() == 6 && "c_ankh"@[2] == 'a' && "c_ankh"@[3] == 'n' && "c_ankh"@[5] == 'h');
    assert("c_aura"@.len() == 6 && "c_aura"@[2] == 'a' && "c_aura"@[3] == 'u' && "c_aura"@[5] == 'a');
}

proof fn lemma_tarot_row(key: Seq<char>, i: nat)
    ensures
        items::tarot_from(key, i) matches Some(meta) ==> exists|k: int|
            i <= k < 22 && (#[trigger] registry::tarot(k)) == meta && meta.key@ == key,
    decreases 22 - i,
{
    if i < 22 {
        lemma_tarot_row(key, i + 1);
        assert(registry::tarot(i as int) == registry::tarot(i as int));
    }
}

proof fn lemma_planet_row(key: Seq<char>, i: nat)
    ensures
        items::planet_from(key, i) matches Some(meta) ==> exists|k: int|
            i <= k < 12 && (#[trigger] registry::planet(k)) == meta && meta.key@ == key,
    decreases 12 - i,
{
    if i < 12 {
        lemma_planet_row(key, i + 1);
        assert(registry::planet(i as int) == registry::planet(i as int));
    }
}

proof fn lemma_spectral_row(key: Seq<char>, i: nat)
    ensures
        items::spectral_from(key, i) matches Some(meta) ==> exists|k: int|
            i <= k < 18 && (#[trigger] registry::spectral(k)) == meta && meta.key@ == key,
    decreases 18 - i,
{
    if i < 18 {
        lemma_spectral_row(key, i + 1);
        assert(registry::spectral(i as int) == registry::spectral(i as int));
    }
}

/// There are places for the targets of a card that takes any.
proof fn lemma_targets_fit(m: RunModel, key: Seq<char>)
    requires
        m.targeting(),
        items::consumable_named(key) matches Some((meta, _)) && meta.max_highlighted > 0
            && m.hand.len() >= tarots::least_targets(meta),
    ensures
        exists|t: Seq<usize>| #[trigger] m.unusable(key, t) is None,
{
    reveal(RunModel::unusable);
    let (meta, set) = items::consumable_named(key)->0;
    lemma_tarot_row(key, 0);
    lemma_spectral_row(key, 0);
    lemma_planet_row(key, 0);
    if set == ConsumableSet::Planet {
        let k = choose|k: int| 0 <= k < 12 && (#[trigger] registry::planet(k)) == meta;
        reveal(registry::planet);
    }
    if set == ConsumableSet::Tarot {
        let k = choose|k: int| 0 <= k < 22 && (#[trigger] registry::tarot(k)) == meta;
        lemma_tarot_targets(k);
    } else if set == ConsumableSet::Spectral {
        let k = choose|k: int| 0 <= k < 18 && (#[trigger] registry::spectral(k)) == meta;
        lemma_spectral_targets(k);
    }
    let n = tarots::least_targets(meta);
    let t = first_places(n);
    assert forall|i: int| 0 <= i < t.len() implies #[trigger] t[i] < m.hand.len() by {}
    assert(t.no_duplicates());
    assert(m.targets_in_hand(t));
    assert(m.unusable(key, t) is None);
}

/// A consumable has a use exactly if there are targets with which it can be
/// used.
pub proof fn law_use_means_targets(m: RunModel, key: Seq<char>)
    requires
        fits_in_memory(m),
    ensures
        m.has_use(key) <==> exists|t: Seq<usize>| #[trigger] m.unusable(key, t) is None,
{
    reveal(RunModel::has_use);
    let none: Seq<usize> = seq![];
    if m.has_use(key) && m.unusable(key, none) is Some {
        if key == "c_aura"@ {
            let i = choose|i: int|
                0 <= i < m.hand.len() && (#[trigger] m.hand[i]).edition == Edition::Plain;
            let t = seq![i as usize];
            lemma_aura_key();
            reveal(RunModel::unusable);
            assert(t[0] == i);
            assert(m.targets_in_hand(t));
            assert(m.unusable(key, t) is None);
        } else {
            lemma_targets_fit(m, key);
        }
    }
    if exists|t: Seq<usize>| #[trigger] m.unusable(key, t) is None {
        let t = choose|t: Seq<usize>| #[trigger] m.unusable(key, t) is None;
        reveal(RunModel::unusable);
        assert(m.targets_in_hand(none));
        lemma_distinct_places(t, m.hand.len());
        if key == "c_aura"@ && m.unusable(key, none) is Some {
            assert(m.hand[t[0] as int].edition == Edition::Plain);
        }
    }
}

/// A consumable is listed for use exactly if some targets are accepted, and so
/// is a card of the open pack; playing and discarding are listed wherever some
/// cards are accepted.
pub proof fn law_listed_choices_can_be_made(m: RunModel, i: usize, cards: Seq<usize>)
    requires
        fits_in_memory(m),
    ensures
        m.choices().contains(Action::UseConsumable(i)) <==> exists|t: Seq<usize>|
            (#[trigger] m.consumable_used(i, t)).refusal is None,
        m.choices().contains(Action::PickPackItem(i)) <==> exists|t: Seq<usize>|
            (#[trigger] m.pack_picked(i, t)).refusal is None,
        m.play(cards).refusal is None ==> m.choices().contains(Action::Play),
        m.discard(cards).refusal is None ==> m.choices().contains(Action::Discard),
{
    lemma_listed(m, Action::UseConsumable(i));
    lemma_listed(m, Action::PickPackItem(i));
    lemma_listed(m, Action::Play);
    lemma_listed(m, Action::Discard);
    lemma_uses(m, i);
    lemma_picks(m, i);
    assert(m.play(cards).refusal is None ==> m.open_to(Action::Play)) by {
        reveal(RunModel::play);
    }
    assert(m.discard(cards).refusal is None ==> m.open_to(Action::Discard)) by {
        reveal(RunModel::discard);
    }
}

proof fn lemma_uses(m: RunModel, i: usize)
    requires
        fits_in_memory(m),
    ensures
        m.open_to(Action::UseConsumable(i)) <==> exists|t: Seq<usize>|
            (#[trigger] m.consumable_used(i, t)).refusal is None,
{
    reveal(RunModel::consumable_used);
    if i < m.consumables.len() {
        let key = m.consumables[i as int].key;
        law_use_means_targets(m, key@);
        let x = m.without_consumable(i as nat);
        assert forall|t: Seq<usize>|
            (#[trigger] m.consumable_used(i, t)).refusal is None <==> m.unusable(key@, t) is None by {
            if m.unusable(key@, t) is None {
                law_usable_consumables_work(m, x, key, t);
            }
        }
        if m.has_use(key@) {
            let t = choose|t: Seq<usize>| #[trigger] m.unusable(key@, t) is None;
            assert(m.consumable_used(i, t).refusal is None);
            assert(m.selling()) by {
                reveal(RunModel::unusable);
            }
        }
    }
}

proof fn lemma_picks(m: RunModel, i: usize)
    requires
        fits_in_memory(m),
    ensures
        m.open_to(Action::PickPackItem(i)) <==> exists|t: Seq<usize>|
            (#[trigger] m.pack_picked(i, t)).refusal is None,
{
    reveal(RunModel::pack_picked);
    let none: Seq<usize> = seq![];
    if m.state == State::PackOpen && m.pack is Some && i < m.pack->0.items.len() {
        match m.pack->0.items[i as int] {
            PackItem::Consumable(c) => {
                law_use_means_targets(m, c.key@);
                let x = m.without_pack_item(i as nat);
                assert forall|t: Seq<usize>|
                    (#[trigger] m.pack_picked(i, t)).refusal is None <==> m.unusable(c.key@, t)
                        is None by {
                    if m.unusable(c.key@, t) is None {
                        law_usable_consumables_work(m, x, c.key, t);
                    }
                }
                if m.has_use(c.key@) {
                    let t = choose|t: Seq<usize>| #[trigger] m.unusable(c.key@, t) is None;
                    assert(m.pack_picked(i, t).refusal is None);
                }
            },
            PackItem::Joker(j) => {
                if m.seats(j.edition) {
                    assert(m.pack_picked(i, none).refusal is None);
                }
            },
            PackItem::PlayingCard(_) => {
                assert(m.pack_picked(i, none).refusal is None);
            },
        }
    }
}

/// A run that is over lists nothing and accepts nothing.
pub proof fn law_over_is_over(m: RunModel, a: Action, cards: Seq<usize>, i: usize, amount: Double)
    requires
        m.state == State::GameOver || m.state == State::Won,
    ensures
        m.choices() == Seq::<Action>::empty(),
        m.answer(a, amount) matches Some(t) ==> t.refusal is Some,
        m.play(cards).refusal is Some,
        m.discard(cards).refusal is Some,
        m.consumable_used(i, cards).refusal is Some,
        m.item_bought(i, true, cards).refusal is Some,
        m.pack_picked(i, cards).refusal is Some,
{
    assert(m.choices() =~= Seq::<Action>::empty()) by {
        reveal(RunModel::choices);
    }
    assert(m.play(cards).refusal is Some && m.discard(cards).refusal is Some) by {
        reveal(RunModel::play);
        reveal(RunModel::discard);
    }
    assert(m.consumable_used(i, cards).refusal is Some) by {
        reveal(RunModel::consumable_used);
        reveal(RunModel::unusable);
    }
    assert(m.item_bought(i, true, cards).refusal is Some) by {
        reveal(RunModel::item_bought);
    }
    assert(m.pack_picked(i, cards).refusal is Some) by {
        reveal(RunModel::pack_picked);
    }
    lemma_moves(m, amount);
    match a {
        Action::BuyShopItem(i) => lemma_purchases(m, i),
        Action::RedeemVoucher(i) => lemma_purchases(m, i),
        Action::BuyPack(i) => lemma_purchases(m, i),
        Action::SellConsumable(i) => lemma_sales(m, i),
        Action::SellJoker(i) => lemma_sales(m, i),
        _ => {},
    }
}

} // verus!
