//! Buying, selling and leaving the shop, and taking cards out of packs.
use crate::cards::{Card, Edition};
use crate::double::Double;
use crate::items;
use crate::items::JokerId;
use crate::jokers::{resolve_effective, resolved};
use crate::making;
use crate::making::{
    alter, find_number, numbers_of_consumables, numbers_of_jokers, pick_number,
};
use crate::play::list_of;
use crate::round;
use crate::run::{
    Limits, Offers, Purse, Rates, Refusal, Reroll, Round, Run, RunError, RunModel, State, Track,
    Turn,
};
use crate::shop::{
    OwnedConsumable, OwnedJoker, PackItem, PackModel, PackOffer, PackReturn, PackState, ShopItem,
    ShopItemKind, ShopModel, ShopState, VoucherOffer,
};
use crate::text;
use crate::text::{same_text, with_count};
use crate::usage;
use crate::usage::copy_of;
use vstd::prelude::*;

verus! {

// ---- buying --------------------------------------------------------------

impl RunModel {
    /// The shop without what lies in a slot.
    pub open spec fn without_item(self, slot: nat) -> RunModel {
        match self.shop {
            Some(shop) => RunModel {
                shop: Some(ShopModel { jokers: shop.jokers.remove(slot as int), ..shop }),
                ..self
            },
            None => self,
        }
    }

    /// A bought playing card goes to the bottom of the deck.
    pub open spec fn card_gained(self, card: Card) -> RunModel {
        let m = self.one_more_card();
        (RunModel { deck: m.deck.insert(0, card), ..m }).cards_added(1)
    }

    /// Something bought is taken.
    pub open spec fn item_gained(self, kind: ShopItemKind) -> RunModel {
        match kind {
            ShopItemKind::Joker(j) => self.with_joker(j, round::disabling(true)),
            ShopItemKind::Consumable(c) => RunModel {
                consumables: self.consumables.push(c),
                ..self
            },
            ShopItemKind::PlayingCard(card) => self.card_gained(card),
        }
    }

    /// Something in the shop is bought; a consumable may be used at once.
    #[verifier::opaque]
    pub open spec fn item_bought(self, slot: usize, and_use: bool, targets: Seq<usize>) -> Turn {
        if self.state != State::Shop || self.shop is None {
            Turn::refused(self, Refusal::WrongState)
        } else if slot >= self.shop->0.jokers.len() {
            Turn::refused(self, Refusal::BadSlot("shop slot "@ + text::decimal(slot as int)))
        } else {
            let item = self.shop->0.jokers[slot as int];
            let cost = self.item_price(item);
            if !self.affords(cost) {
                Turn::refused(self, Refusal::InsufficientFunds)
            } else if and_use {
                match item.kind {
                    ShopItemKind::Consumable(c) => match self.unusable(c.key@, targets) {
                        Some(why) => Turn::refused(self, Refusal::CannotUse(why)),
                        None => self.without_item(slot as nat).charged(cost).used_up(
                            c.key,
                            targets,
                        ),
                    },
                    _ => Turn::refused(self, Refusal::CannotUse("not a consumable"@)),
                }
            } else if !self.fits(item) {
                Turn::refused(self, Refusal::NoSpace)
            } else {
                Turn::done(self.without_item(slot as nat).item_gained(item.kind).charged(cost))
            }
        }
    }
}

impl Run {
    fn gain_card(&mut self, card: Card)
        ensures
            final(self)@ == old(self)@.card_gained(card),
    {
        self.count_card();
        self.deck.insert(0, card);
        self.joker_playing_cards_added(1);
    }

    fn buy_shop_item_inner(&mut self, slot: usize, and_use: bool, targets: &Vec<usize>) -> (r:
        Result<(), RunError>)
        ensures
            final(self)@ == old(self)@.item_bought(slot, and_use, targets@).run,
            old(self)@.item_bought(slot, and_use, targets@).tells(r),
    {
        proof {
            reveal(RunModel::item_bought);
            reveal(RunModel::unusable);
        }
        if self.state != State::Shop {
            return Err(RunError::WrongState);
        }
        let item = match &self.shop {
            None => {
                return Err(RunError::WrongState);
            },
            Some(shop) => {
                if slot >= shop.jokers.len() {
                    return Err(RunError::BadSlot(with_count("shop slot ", slot)));
                }
                shop.jokers[slot]
            },
        };
        let cost: i64 = self.shop_item_cost(&item);
        if !self.affordable(cost) {
            return Err(RunError::InsufficientFunds);
        }
        if and_use {
            let c = match item.kind {
                ShopItemKind::Consumable(c) => c,
                _ => {
                    return Err(RunError::CannotUse("not a consumable".to_owned()));
                },
            };
            if let Err(why) = self.can_use_on(c.key, targets) {
                return Err(RunError::CannotUse(why));
            }
            if let Some(shop) = &mut self.shop {
                shop.jokers.remove(slot);
            }
            self.purse.dollars = self.purse.dollars.wrapping_sub(cost);
            return self.use_up(c.key, targets);
        }
        if !self.fits(&item) {
            return Err(RunError::NoSpace);
        }
        if let Some(shop) = &mut self.shop {
            shop.jokers.remove(slot);
        }
        match item.kind {
            ShopItemKind::Joker(j) => {
                self.add_joker(j);
            },
            ShopItemKind::Consumable(c) => {
                self.consumables.push(c);
            },
            ShopItemKind::PlayingCard(card) => {
                self.gain_card(card);
            },
        }
        self.purse.dollars = self.purse.dollars.wrapping_sub(cost);
        Ok(())
    }

    /// Buy what lies in a slot of the shop.
    pub fn buy_shop_item(&mut self, slot: usize) -> (r: Result<(), RunError>)
        ensures
            final(self)@ == old(self)@.item_bought(slot, false, seq![]).run,
            old(self)@.item_bought(slot, false, seq![]).tells(r),
    {
        let none: Vec<usize> = Vec::new();
        assert(none@ =~= seq![]);
        self.buy_shop_item_inner(slot, false, &none)
    }

    /// Buy the consumable in a slot of the shop and use it at once.
    pub fn buy_and_use_shop_item(&mut self, slot: usize, targets: &[usize]) -> (r: Result<
        (),
        RunError,
    >)
        ensures
            final(self)@ == old(self)@.item_bought(slot, true, targets@).run,
            old(self)@.item_bought(slot, true, targets@).tells(r),
    {
        let list = list_of(targets);
        self.buy_shop_item_inner(slot, true, &list)
    }
}

// ---- vouchers ------------------------------------------------------------

impl RunModel {
    pub open spec fn with_rates(self, rates: Rates) -> RunModel {
        RunModel { rates, ..self }
    }

    pub open spec fn with_discount(self, percent: i64) -> RunModel {
        RunModel { purse: Purse { discount_percent: percent, ..self.purse }, ..self }
    }

    pub open spec fn with_interest_cap(self, cap: i64) -> RunModel {
        RunModel { purse: Purse { interest_cap: cap, ..self.purse }, ..self }
    }

    /// More hands in each round, this one too.
    pub open spec fn with_hands_by(self, n: int) -> RunModel {
        RunModel {
            limits: Limits { hands: self.limits.hands.wrapping_add(n as i64), ..self.limits },
            round: Round { hands_left: self.round.hands_left.wrapping_add(n as i64), ..self.round },
            ..self
        }
    }

    /// One more slot in the shop, filled at once if a shop is open.
    pub open spec fn shop_widened(self) -> RunModel {
        let m = RunModel {
            limits: Limits {
                shop_joker_max: self.limits.shop_joker_max.wrapping_add(1),
                ..self.limits
            },
            ..self
        };
        match m.shop {
            Some(shop) => {
                let n = if m.limits.shop_joker_max > shop.jokers.len() {
                    (m.limits.shop_joker_max - shop.jokers.len()) as nat
                } else {
                    0
                };
                m.stocked(n).shop_finished()
            },
            None => m,
        }
    }

    /// Rerolls cost two dollars less.
    pub open spec fn rerolls_cheaper(self) -> RunModel {
        let cost = self.reroll.cost.wrapping_sub(2);
        RunModel {
            reroll: Reroll {
                base_cost: self.reroll.base_cost.wrapping_sub(2),
                cost: if cost < 0 {
                    0
                } else {
                    cost
                },
                ..self.reroll
            },
            ..self
        }
    }

    /// An ante back.
    pub open spec fn ante_back(self) -> RunModel {
        RunModel {
            track: Track {
                ante: self.track.ante.wrapping_sub(1),
                blind_ante: self.track.blind_ante.wrapping_sub(1),
                ..self.track
            },
            ..self
        }
    }

    /// What a voucher changes in a run.
    #[verifier::opaque]
    pub open spec fn voucher_applied(self, key: Seq<char>) -> RunModel {
        if key == "v_overstock_norm"@ || key == "v_overstock_plus"@ {
            self.shop_widened()
        } else if key == "v_tarot_merchant"@ {
            self.with_rates(Rates { tarot: Double::frac(96, 10), ..self.rates })
        } else if key == "v_tarot_tycoon"@ {
            self.with_rates(Rates { tarot: Double::of(32), ..self.rates })
        } else if key == "v_planet_merchant"@ {
            self.with_rates(Rates { planet: Double::frac(96, 10), ..self.rates })
        } else if key == "v_planet_tycoon"@ {
            self.with_rates(Rates { planet: Double::of(32), ..self.rates })
        } else if key == "v_hone"@ {
            self.with_rates(Rates { edition: Double::of(2), ..self.rates })
        } else if key == "v_glow_up"@ {
            self.with_rates(Rates { edition: Double::of(4), ..self.rates })
        } else if key == "v_magic_trick"@ || key == "v_illusion"@ {
            self.with_rates(Rates { playing_card: Double::of(4), ..self.rates })
        } else if key == "v_crystal_ball"@ {
            RunModel {
                limits: Limits {
                    consumable_slots: self.limits.consumable_slots.wrapping_add(1),
                    ..self.limits
                },
                ..self
            }
        } else if key == "v_clearance_sale"@ {
            self.with_discount(25)
        } else if key == "v_liquidation"@ {
            self.with_discount(50)
        } else if key == "v_reroll_surplus"@ || key == "v_reroll_glut"@ {
            self.rerolls_cheaper()
        } else if key == "v_seed_money"@ {
            self.with_interest_cap(50)
        } else if key == "v_money_tree"@ {
            self.with_interest_cap(100)
        } else if key == "v_grabber"@ || key == "v_nacho_tong"@ {
            self.with_hands_by(1)
        } else if key == "v_paint_brush"@ || key == "v_palette"@ {
            self.resized(1)
        } else if key == "v_wasteful"@ || key == "v_recyclomancy"@ {
            self.with_discards(1)
        } else if key == "v_antimatter"@ {
            self.with_joker_slots(self.limits.joker_slots.wrapping_add(1))
        } else if key == "v_hieroglyph"@ {
            self.ante_back().with_hands_by(-1)
        } else if key == "v_petroglyph"@ {
            self.ante_back().with_discards(-1)
        } else {
            self
        }
    }

    pub open spec fn voucher_used(self, key: Seq<char>) -> RunModel {
        (RunModel { used_vouchers: self.used_vouchers.insert(key, ()), ..self }).voucher_applied(
            key,
        )
    }

    /// A voucher in the shop is redeemed.
    #[verifier::opaque]
    pub open spec fn voucher_redeemed(self, slot: usize) -> Turn {
        if self.state != State::Shop || self.shop is None {
            Turn::refused(self, Refusal::WrongState)
        } else {
            let shop = self.shop->0;
            if slot >= shop.vouchers.len() {
                Turn::refused(self, Refusal::BadSlot("voucher slot "@ + text::decimal(slot as int)))
            } else {
                let key = shop.vouchers[slot as int].key@;
                let cost = self.voucher_price(key);
                if self.funds() < cost {
                    Turn::refused(self, Refusal::InsufficientFunds)
                } else {
                    let m = RunModel {
                        shop: Some(
                            ShopModel { vouchers: shop.vouchers.remove(slot as int), ..shop },
                        ),
                        offers: Offers { current_voucher: None, ..self.offers },
                        ..self
                    };
                    Turn::done(m.released(key).charged(cost).voucher_used(key))
                }
            }
        }
    }

    /// A joker of a kind is made without any draw but its own.
    pub open spec fn joker_granted(self, id: JokerId, edition: Edition) -> RunModel {
        let sort_id = self.next_id();
        let (state, m) = self.numbered().using(id.row().key@).first_state(id);
        m.with_joker(self.new_joker(id, edition, sort_id, state), round::disabling(true))
    }
}

impl Run {
    fn widen_shop(&mut self)
        ensures
            final(self)@ == old(self)@.shop_widened(),
    {
        self.limits.shop_joker_max = self.limits.shop_joker_max.wrapping_add(1);
        let len: usize = match &self.shop {
            Some(shop) => shop.jokers.len(),
            None => {
                return ;
            },
        };
        let n: usize = if self.limits.shop_joker_max > len {
            self.limits.shop_joker_max - len
        } else {
            0
        };
        self.stock(n);
        self.apply_store_joker_modify_tags();
    }

    fn add_hands(&mut self, n: i64)
        ensures
            final(self)@ == old(self)@.with_hands_by(n as int),
    {
        self.limits.hands = self.limits.hands.wrapping_add(n);
        self.round.hands_left = self.round.hands_left.wrapping_add(n);
    }

    fn go_back_an_ante(&mut self)
        ensures
            final(self)@ == old(self)@.ante_back(),
    {
        self.track.ante = self.track.ante.wrapping_sub(1);
        self.track.blind_ante = self.track.blind_ante.wrapping_sub(1);
    }

    pub(crate) fn apply_voucher(&mut self, key: &str)
        ensures
            final(self)@ == old(self)@.voucher_applied(key@),
    {
        proof {
            reveal(RunModel::voucher_applied);
        }
        if same_text(key, "v_overstock_norm") || same_text(key, "v_overstock_plus") {
            self.widen_shop();
        } else if same_text(key, "v_tarot_merchant") {
            self.rates.tarot = Double::lit(96, 10);
        } else if same_text(key, "v_tarot_tycoon") {
            self.rates.tarot = Double::from_i64(32);
        } else if same_text(key, "v_planet_merchant") {
            self.rates.planet = Double::lit(96, 10);
        } else if same_text(key, "v_planet_tycoon") {
            self.rates.planet = Double::from_i64(32);
        } else if same_text(key, "v_hone") {
            self.rates.edition = Double::from_i64(2);
        } else if same_text(key, "v_glow_up") {
            self.rates.edition = Double::from_i64(4);
        } else if same_text(key, "v_magic_trick") || same_text(key, "v_illusion") {
            self.rates.playing_card = Double::from_i64(4);
        } else if same_text(key, "v_crystal_ball") {
            self.limits.consumable_slots = self.limits.consumable_slots.wrapping_add(1);
        } else if same_text(key, "v_clearance_sale") {
            self.purse.discount_percent = 25;
        } else if same_text(key, "v_liquidation") {
            self.purse.discount_percent = 50;
        } else if same_text(key, "v_reroll_surplus") || same_text(key, "v_reroll_glut") {
            self.reroll.base_cost = self.reroll.base_cost.wrapping_sub(2);
            let cost: i64 = self.reroll.cost.wrapping_sub(2);
            self.reroll.cost = if cost < 0 {
                0
            } else {
                cost
            };
        } else if same_text(key, "v_seed_money") {
            self.purse.interest_cap = 50;
        } else if same_text(key, "v_money_tree") {
            self.purse.interest_cap = 100;
        } else if same_text(key, "v_grabber") || same_text(key, "v_nacho_tong") {
            self.add_hands(1);
        } else if same_text(key, "v_paint_brush") || same_text(key, "v_palette") {
            self.resize(1);
        } else if same_text(key, "v_wasteful") || same_text(key, "v_recyclomancy") {
            self.add_discards(1);
        } else if same_text(key, "v_antimatter") {
            self.limits.joker_slots = self.limits.joker_slots.wrapping_add(1);
        } else if same_text(key, "v_hieroglyph") {
            self.go_back_an_ante();
            self.add_hands(-1);
        } else if same_text(key, "v_petroglyph") {
            self.go_back_an_ante();
            self.add_discards(-1);
        }
    }

    fn use_voucher(&mut self, key: &str)
        ensures
            final(self)@ == old(self)@.voucher_used(key@),
    {
        self.used_vouchers.insert(key, ());
        self.apply_voucher(key);
    }

    /// Redeem a voucher in the shop.
    pub fn redeem_voucher(&mut self, slot: usize) -> (r: Result<(), RunError>)
        ensures
            final(self)@ == old(self)@.voucher_redeemed(slot).run,
            old(self)@.voucher_redeemed(slot).tells(r),
    {
        proof {
            reveal(RunModel::voucher_redeemed);
        }
        if self.state != State::Shop {
            return Err(RunError::WrongState);
        }
        let key = match &self.shop {
            None => {
                return Err(RunError::WrongState);
            },
            Some(shop) => {
                if slot >= shop.vouchers.len() {
                    return Err(RunError::BadSlot(with_count("voucher slot ", slot)));
                }
                shop.vouchers[slot].key
            },
        };
        let cost: i64 = self.voucher_cost(key);
        if self.funds() < cost {
            return Err(RunError::InsufficientFunds);
        }
        if let Some(shop) = &mut self.shop {
            shop.vouchers.remove(slot);
        }
        self.offers.current_voucher = None;
        self.remove_used(key);
        self.purse.dollars = self.purse.dollars.wrapping_sub(cost);
        self.use_voucher(key);
        Ok(())
    }

    /// Apply a voucher as if it had been redeemed, free of charge.
    pub fn debug_apply_voucher(&mut self, key: &'static str)
        requires
            items::voucher_named(key@) is Some,
        ensures
            final(self)@ == old(self)@.voucher_used(key@),
    {
        self.use_voucher(key);
    }

    /// Give the run a joker.
    pub fn debug_add_joker(&mut self, id: JokerId, edition: Edition)
        ensures
            final(self)@ == old(self)@.joker_granted(id, edition),
    {
        let hands_at_create: i64 = self.record.hands_played_total;
        let sort_id: u32 = self.next_sort_id();
        self.add_used(id.key());
        let state = self.initial_state(id);
        self.add_joker(
            OwnedJoker {
                id,
                edition,
                sort_id,
                extra_value: 0,
                debuffed: false,
                flipped: false,
                eternal: false,
                hands_at_create,
                state,
            },
        );
    }

    /// A joker of the run, to be changed.
    pub fn debug_joker_mut(&mut self, idx: usize) -> (r: &mut OwnedJoker)
        requires
            idx < old(self).jokers.len(),
        ensures
            *r == old(self)@.jokers[idx as int],
            final(self)@ == (RunModel {
                jokers: old(self)@.jokers.update(idx as int, *final(r)),
                ..old(self)@
            }),
    {
        &mut self.jokers[idx]
    }

    /// Give the run a consumable.
    pub fn debug_add_consumable(&mut self, key: &'static str)
        requires
            items::consumable_named(key@) is Some,
        ensures
            final(self)@ == old(self)@.with_consumable(key),
    {
        self.add_consumable(key);
    }
}

// ---- rerolling and leaving the shop --------------------------------------

/// Flash Cards grow by a reroll.
pub open spec fn flash_grown() -> spec_fn(OwnedJoker) -> OwnedJoker {
    |j: OwnedJoker|
        if j.id == JokerId::Flash && !j.debuffed {
            j.gain_mult(2)
        } else {
            j
        }
}

/// Campfires grow by a sale.
pub open spec fn campfire_grown() -> spec_fn(OwnedJoker) -> OwnedJoker {
    |j: OwnedJoker|
        if j.id == JokerId::Campfire && !j.debuffed {
            j.gain_x(Double::frac(25, 100))
        } else {
            j
        }
}

/// Red Cards grow by a pack that is skipped.
pub open spec fn red_card_grown() -> spec_fn(OwnedJoker) -> OwnedJoker {
    |j: OwnedJoker|
        if j.id == JokerId::RedCard && !j.debuffed {
            j.gain_mult(3)
        } else {
            j
        }
}

/// The key under which something in the shop is about.
pub open spec fn item_key(kind: ShopItemKind) -> Option<Seq<char>> {
    match kind {
        ShopItemKind::Joker(j) => Some(j.id.row().key@),
        ShopItemKind::Consumable(c) => Some(c.key@),
        ShopItemKind::PlayingCard(_) => None,
    }
}

/// The key under which something in a pack is about.
pub open spec fn pack_item_key(item: PackItem) -> Option<Seq<char>> {
    match item {
        PackItem::Joker(j) => Some(j.id.row().key@),
        PackItem::Consumable(c) => Some(c.key@),
        PackItem::PlayingCard(_) => None,
    }
}

impl RunModel {
    pub open spec fn released_if(self, key: Option<Seq<char>>) -> RunModel {
        match key {
            Some(k) => self.released(k),
            None => self,
        }
    }

    /// The first `n` things of the shop are no longer about.
    pub open spec fn items_released(self, items: Seq<ShopItem>, n: nat) -> RunModel
        decreases n,
    {
        if n == 0 {
            self
        } else {
            self.items_released(items, (n - 1) as nat).released_if(item_key(items[n - 1].kind))
        }
    }

    /// The first `n` vouchers are no longer about.
    pub open spec fn vouchers_released(self, list: Seq<VoucherOffer>, n: nat) -> RunModel
        decreases n,
    {
        if n == 0 {
            self
        } else {
            self.vouchers_released(list, (n - 1) as nat).released(list[n - 1].key@)
        }
    }

    /// The first `n` things of a pack are no longer about.
    pub open spec fn pack_released(self, items: Seq<PackItem>, n: nat) -> RunModel
        decreases n,
    {
        if n == 0 {
            self
        } else {
            self.pack_released(items, (n - 1) as nat).released_if(pack_item_key(items[n - 1]))
        }
    }

    pub open spec fn with_jokers(self, jokers: Seq<OwnedJoker>) -> RunModel {
        RunModel { jokers, ..self }
    }

    /// A reroll is paid for; the next one gets dearer unless this one was free.
    pub open spec fn reroll_paid(self) -> RunModel {
        let m = if self.reroll.cost > 0 {
            self.charged(self.reroll.cost)
        } else {
            self
        };
        let free = m.reroll.free.wrapping_sub(1);
        (RunModel {
            reroll: Reroll {
                free: if free < 0 {
                    0
                } else {
                    free
                },
                ..m.reroll
            },
            ..m
        }).reroll_priced(self.reroll.free > 0)
    }

    /// The shop is cleared of all but vouchers and packs.
    pub open spec fn shop_emptied(self) -> RunModel {
        match self.shop {
            Some(shop) => (RunModel {
                shop: Some(ShopModel { jokers: seq![], ..shop }),
                ..self
            }).items_released(shop.jokers, shop.jokers.len()),
            None => self,
        }
    }

    /// The shop is rerolled.
    #[verifier::opaque]
    pub open spec fn shop_rerolled(self) -> Turn {
        if self.state != State::Shop {
            Turn::refused(self, Refusal::WrongState)
        } else if !self.rerollable() {
            Turn::refused(self, Refusal::InsufficientFunds)
        } else {
            let m = self.reroll_paid();
            let m1 = m.with_jokers(m.jokers.map_values(flash_grown())).shop_emptied();
            Turn::done(m1.stocked(m1.limits.shop_joker_max as nat).shop_finished())
        }
    }

    /// A Negative copy of a drawn consumable.
    #[verifier::opaque]
    pub open spec fn perkeo_copied(self) -> RunModel {
        let ids = making::consumable_ids(self.consumables);
        let id = making::picked(self.s, "perkeo"@, ids);
        let m = self.after("perkeo"@);
        match making::found(ids, id) {
            Some(i) => {
                let c = self.consumables[i as int];
                let copy = OwnedConsumable { sort_id: m.next_id(), negative: true, ..c };
                let m1 = m.numbered().using(c.key@);
                RunModel {
                    limits: Limits {
                        consumable_slots: m1.limits.consumable_slots.wrapping_add(1),
                        ..m1.limits
                    },
                    consumables: m1.consumables.push(copy),
                    ..m1
                }
            },
            None => m,
        }
    }

    /// The first `n` jokers see the shop close: Perkeos copy consumables.
    pub open spec fn perkeos_done(self, n: nat) -> RunModel
        decreases n,
    {
        if n == 0 {
            self
        } else {
            let m = self.perkeos_done((n - 1) as nat);
            match resolved(self.jokers, (n - 1) as usize) {
                Some((t, _)) => if self.jokers[t as int].id == JokerId::Perkeo
                    && m.consumables.len() > 0 {
                    m.perkeo_copied()
                } else {
                    m
                },
                None => m,
            }
        }
    }

    /// What was not bought is no longer about.
    pub open spec fn shop_closed(self) -> RunModel {
        match self.shop {
            Some(shop) => (RunModel { shop: None, ..self }).items_released(
                shop.jokers,
                shop.jokers.len(),
            ).vouchers_released(shop.vouchers, shop.vouchers.len()),
            None => self,
        }
    }

    /// The shop is left.
    #[verifier::opaque]
    pub open spec fn shop_left(self) -> Turn {
        if self.state != State::Shop {
            Turn::refused(self, Refusal::WrongState)
        } else {
            Turn::done(self.perkeos_done(self.jokers.len()).shop_closed().at_blind_select())
        }
    }
}

impl Run {
    fn release_items(&mut self, items: &Vec<ShopItem>)
        ensures
            final(self)@ == old(self)@.items_released(items@, items@.len()),
    {
        let ghost m = self@;
        let mut i: usize = 0;
        while i < items.len()
            invariant
                i <= items.len(),
                self@ == m.items_released(items@, i as nat),
            decreases items.len() - i,
        {
            match items[i].kind {
                ShopItemKind::Joker(j) => {
                    self.remove_used(j.id.key());
                },
                ShopItemKind::Consumable(c) => {
                    self.remove_used(c.key);
                },
                ShopItemKind::PlayingCard(_) => {},
            }
            i = i + 1;
        }
    }

    fn release_vouchers(&mut self, list: &Vec<VoucherOffer>)
        ensures
            final(self)@ == old(self)@.vouchers_released(list@, list@.len()),
    {
        let ghost m = self@;
        let mut i: usize = 0;
        while i < list.len()
            invariant
                i <= list.len(),
                self@ == m.vouchers_released(list@, i as nat),
            decreases list.len() - i,
        {
            self.remove_used(list[i].key);
            i = i + 1;
        }
    }

    fn release_pack(&mut self, items: &Vec<PackItem>)
        ensures
            final(self)@ == old(self)@.pack_released(items@, items@.len()),
    {
        let ghost m = self@;
        let mut i: usize = 0;
        while i < items.len()
            invariant
                i <= items.len(),
                self@ == m.pack_released(items@, i as nat),
            decreases items.len() - i,
        {
            match items[i] {
                PackItem::Joker(j) => {
                    self.remove_used(j.id.key());
                },
                PackItem::Consumable(c) => {
                    self.remove_used(c.key);
                },
                PackItem::PlayingCard(_) => {},
            }
            i = i + 1;
        }
    }

    fn grow_flash(&mut self)
        ensures
            final(self)@ == old(self)@.with_jokers(
                old(self)@.jokers.map_values(flash_grown()),
            ),
    {
        let f = |j: OwnedJoker| -> (r: OwnedJoker)
            ensures
                r == flash_grown()(j),
            {
                let mut k = j;
                if j.id == JokerId::Flash && !j.debuffed {
                    k.state.mult = k.state.mult.add(Double::from_i64(2));
                }
                k
            };
        alter(&mut self.jokers, f, Ghost(flash_grown()));
    }

    fn pay_reroll(&mut self)
        ensures
            final(self)@ == old(self)@.reroll_paid(),
    {
        if self.reroll.cost > 0 {
            self.purse.dollars = self.purse.dollars.wrapping_sub(self.reroll.cost);
        }
        let was_free = self.reroll.free > 0;
        let free: i64 = self.reroll.free.wrapping_sub(1);
        self.reroll.free = if free < 0 {
            0
        } else {
            free
        };
        self.calculate_reroll_cost(was_free);
    }

    fn empty_shop(&mut self)
        ensures
            final(self)@ == old(self)@.shop_emptied(),
    {
        let mut items: Vec<ShopItem> = Vec::new();
        assert(items@ =~= seq![]);
        match &mut self.shop {
            Some(shop) => {
                std::mem::swap(&mut items, &mut shop.jokers);
            },
            None => {
                return ;
            },
        }
        self.release_items(&items);
    }

    /// Reroll the shop.
    pub fn reroll_shop(&mut self) -> (r: Result<(), RunError>)
        ensures
            final(self)@ == old(self)@.shop_rerolled().run,
            old(self)@.shop_rerolled().tells(r),
    {
        proof {
            reveal(RunModel::shop_rerolled);
        }
        if self.state != State::Shop {
            return Err(RunError::WrongState);
        }
        if !self.can_reroll_shop() {
            return Err(RunError::InsufficientFunds);
        }
        self.pay_reroll();
        self.grow_flash();
        self.empty_shop();
        self.stock(self.limits.shop_joker_max);
        self.apply_store_joker_modify_tags();
        Ok(())
    }

    fn copy_for_perkeo(&mut self)
        requires
            old(self)@.consumables.len() > 0,
        ensures
            final(self)@ == old(self)@.perkeo_copied(),
    {
        proof {
            reveal(RunModel::perkeo_copied);
        }
        let ids = numbers_of_consumables(&self.consumables);
        let id: u32 = pick_number(&mut self.rng, "perkeo", &ids);
        if let Some(i) = find_number(&ids, id) {
            let c = self.consumables[i];
            let sort_id: u32 = self.next_sort_id();
            self.limits.consumable_slots = self.limits.consumable_slots.wrapping_add(1);
            self.add_used(c.key);
            self.consumables.push(
                OwnedConsumable {
                    key: c.key,
                    sort_id,
                    negative: true,
                    extra_value: c.extra_value,
                },
            );
        }
    }

    fn run_perkeos(&mut self)
        ensures
            final(self)@ == old(self)@.perkeos_done(old(self)@.jokers.len()),
    {
        let ghost m = self@;
        let mut i: usize = 0;
        while i < self.jokers.len()
            invariant
                i <= self.jokers.len(),
                self@.jokers == m.jokers,
                self@ == m.perkeos_done(i as nat),
            decreases self.jokers.len() - i,
        {
            if let Some((t, _)) = resolve_effective(&self.jokers, i) {
                if self.jokers[t].id == JokerId::Perkeo && self.consumables.len() > 0 {
                    proof {
                        reveal(RunModel::perkeo_copied);
                    }
                    self.copy_for_perkeo();
                }
            }
            i = i + 1;
        }
    }

    fn close_shop(&mut self)
        ensures
            final(self)@ == old(self)@.shop_closed(),
    {
        let mut taken: Option<ShopState> = None;
        std::mem::swap(&mut taken, &mut self.shop);
        if let Some(shop) = taken {
            self.release_items(&shop.jokers);
            self.release_vouchers(&shop.vouchers);
        }
    }

    /// Leave the shop for the next blind.
    pub fn leave_shop(&mut self) -> (r: Result<(), RunError>)
        ensures
            final(self)@ == old(self)@.shop_left().run,
            old(self)@.shop_left().tells(r),
    {
        proof {
            reveal(RunModel::shop_left);
        }
        if self.state != State::Shop {
            return Err(RunError::WrongState);
        }
        self.run_perkeos();
        self.close_shop();
        self.enter_blind_select();
        Ok(())
    }
}

// ---- selling -------------------------------------------------------------

/// The numbers of the first `n` jokers but one.
pub open spec fn other_ids(jokers: Seq<OwnedJoker>, but: u32, n: nat) -> Seq<u32>
    decreases n,
{
    if n == 0 {
        seq![]
    } else {
        let rest = other_ids(jokers, but, (n - 1) as nat);
        if jokers[n - 1].sort_id != but {
            rest.push(jokers[n - 1].sort_id)
        } else {
            rest
        }
    }
}

fn numbers_of_others(jokers: &Vec<OwnedJoker>, but: u32) -> (r: Vec<u32>)
    ensures
        r@ == other_ids(jokers@, but, jokers@.len()),
{
    let mut ids: Vec<u32> = Vec::new();
    let mut i: usize = 0;
    while i < jokers.len()
        invariant
            i <= jokers.len(),
            ids@ == other_ids(jokers@, but, i as nat),
        decreases jokers.len() - i,
    {
        if jokers[i].sort_id != but {
            ids.push(jokers[i].sort_id);
        }
        i = i + 1;
    }
    ids
}

impl RunModel {
    /// A copy of a drawn joker but one; a copied Invisible Joker starts anew.
    #[verifier::opaque]
    pub open spec fn invisible_copied(self, but: u32) -> RunModel {
        let ids = other_ids(self.jokers, but, self.jokers.len());
        let id = making::picked(self.s, "invisible"@, ids);
        let m = self.after("invisible"@);
        match making::found(making::joker_ids(self.jokers), id) {
            Some(i) => {
                let j = self.jokers[i as int];
                let m1 = m.copy_drawn(j);
                let k = usage::copied(j, m1.next_id());
                let copy = if j.id == JokerId::Invisible {
                    k.with_extra(Double::of(0))
                } else {
                    k
                };
                m1.numbered().using(j.id.row().key@).with_joker(copy, round::disabling(true))
            },
            None => m,
        }
    }

    /// What the joker in a place does when it is sold, before it is gone.
    #[verifier::opaque]
    pub open spec fn parted(self, idx: nat) -> RunModel {
        match resolved(self.jokers, idx as usize) {
            None => self,
            Some((t, copied)) => {
                let j = self.jokers[t as int];
                if j.id == JokerId::Luchador && self.faces_live_boss() {
                    self.disabled()
                } else if j.id == JokerId::DietCola {
                    self.with_tag("tag_double", None)
                } else if j.id == JokerId::Invisible && !copied && Double::of(2).at_most(
                    j.state.extra,
                ) && other_ids(self.jokers, j.sort_id, self.jokers.len()).len() > 0
                    && self.jokers.len() <= self.limits.joker_slots {
                    self.invisible_copied(j.sort_id)
                } else {
                    self
                }
            },
        }
    }

    /// The jokers see a sale.
    pub open spec fn sale_seen(self) -> RunModel {
        self.with_jokers(self.jokers.map_values(campfire_grown()))
    }

    /// Selling a joker disables the Verdant Leaf.
    pub open spec fn leaf_withered(self) -> RunModel {
        if self.round.active_blind matches Some(b) && b.named("Verdant Leaf"@) && !b.disabled {
            self.disabled()
        } else {
            self
        }
    }

    /// The joker with a number is sold, if it is still there.
    #[verifier::opaque]
    pub open spec fn joker_gone(self, id: u32) -> RunModel {
        match making::found(making::joker_ids(self.jokers), id) {
            Some(i) => self.without_joker(i).paid(
                self.joker_worth(self.jokers[i as int]),
            ).leaf_withered().sale_seen(),
            None => self,
        }
    }

    /// A joker is sold.
    #[verifier::opaque]
    pub open spec fn joker_sold(self, idx: usize) -> Turn {
        if !self.selling() {
            Turn::refused(self, Refusal::WrongState)
        } else if idx >= self.jokers.len() {
            Turn::refused(self, Refusal::BadSlot("joker "@ + text::decimal(idx as int)))
        } else {
            Turn::done(self.parted(idx as nat).joker_gone(self.jokers[idx as int].sort_id))
        }
    }

    /// A consumable is sold.
    #[verifier::opaque]
    pub open spec fn consumable_sold(self, idx: usize) -> Turn {
        if !self.selling() {
            Turn::refused(self, Refusal::WrongState)
        } else if idx >= self.consumables.len() {
            Turn::refused(self, Refusal::BadSlot("consumable "@ + text::decimal(idx as int)))
        } else {
            let c = self.consumables[idx as int];
            Turn::done(
                self.without_consumable(idx as nat).paid(self.consumable_worth(c)).released(
                    c.key@,
                ).sale_seen(),
            )
        }
    }
}

impl Run {
    fn copy_for_invisible(&mut self, but: u32)
        requires
            other_ids(old(self)@.jokers, but, old(self)@.jokers.len()).len() > 0,
        ensures
            final(self)@ == old(self)@.invisible_copied(but),
    {
        proof {
            reveal(RunModel::invisible_copied);
        }
        let ids = numbers_of_others(&self.jokers, but);
        let id: u32 = pick_number(&mut self.rng, "invisible", &ids);
        let all = numbers_of_jokers(&self.jokers);
        if let Some(i) = find_number(&all, id) {
            let j = self.jokers[i];
            self.draw_for_copy(&j);
            let sort_id: u32 = self.next_sort_id();
            let mut copy = copy_of(&j, sort_id);
            if j.id == JokerId::Invisible {
                copy.state.extra = Double::from_i64(0);
            }
            self.add_used(j.id.key());
            self.add_joker(copy);
        }
    }

    fn part(&mut self, idx: usize)
        requires
            idx < old(self)@.jokers.len(),
        ensures
            final(self)@ == old(self)@.parted(idx as nat),
    {
        proof {
            reveal(RunModel::parted);
        }
        if let Some((t, copied)) = resolve_effective(&self.jokers, idx) {
            let j = self.jokers[t];
            if j.id == JokerId::Luchador && self.faces_live_boss() {
                self.disable_boss();
            } else if j.id == JokerId::DietCola {
                self.add_tag("tag_double", None);
            } else if j.id == JokerId::Invisible && !copied && Double::from_i64(2).le(
                j.state.extra,
            ) {
                let others = numbers_of_others(&self.jokers, j.sort_id);
                if others.len() > 0 && self.jokers.len() <= self.limits.joker_slots {
                    self.copy_for_invisible(j.sort_id);
                }
            }
        }
    }

    fn joker_selling_card_pass(&mut self)
        ensures
            final(self)@ == old(self)@.sale_seen(),
    {
        let f = |j: OwnedJoker| -> (r: OwnedJoker)
            ensures
                r == campfire_grown()(j),
            {
                let mut k = j;
                if j.id == JokerId::Campfire && !j.debuffed {
                    k.state.x_mult = k.state.x_mult.add(Double::lit(25, 100));
                }
                k
            };
        alter(&mut self.jokers, f, Ghost(campfire_grown()));
    }

    fn sell_numbered(&mut self, id: u32)
        ensures
            final(self)@ == old(self)@.joker_gone(id),
    {
        proof {
            reveal(RunModel::joker_gone);
        }
        let ids = numbers_of_jokers(&self.jokers);
        if let Some(i) = find_number(&ids, id) {
            let j = self.jokers[i];
            let worth: i64 = self.joker_sell_value(&j);
            self.remove_joker_at(i);
            self.purse.dollars = self.purse.dollars.wrapping_add(worth);
            if self.faces("Verdant Leaf") {
                self.disable_boss();
            }
            self.joker_selling_card_pass();
        }
    }

    /// Sell a joker.
    pub fn sell_joker(&mut self, idx: usize) -> (r: Result<(), RunError>)
        ensures
            final(self)@ == old(self)@.joker_sold(idx).run,
            old(self)@.joker_sold(idx).tells(r),
    {
        proof {
            reveal(RunModel::joker_sold);
        }
        if !self.can_sell_now() {
            return Err(RunError::WrongState);
        }
        if idx >= self.jokers.len() {
            return Err(RunError::BadSlot(with_count("joker ", idx)));
        }
        let id: u32 = self.jokers[idx].sort_id;
        self.part(idx);
        self.sell_numbered(id);
        Ok(())
    }

    /// Sell a consumable.
    pub fn sell_consumable(&mut self, idx: usize) -> (r: Result<(), RunError>)
        ensures
            final(self)@ == old(self)@.consumable_sold(idx).run,
            old(self)@.consumable_sold(idx).tells(r),
    {
        proof {
            reveal(RunModel::consumable_sold);
        }
        if !self.can_sell_now() {
            return Err(RunError::WrongState);
        }
        if idx >= self.consumables.len() {
            return Err(RunError::BadSlot(with_count("consumable ", idx)));
        }
        let c = self.consumables[idx];
        let worth: i64 = self.consumable_sell_value(&c);
        self.drop_consumable(idx);
        self.purse.dollars = self.purse.dollars.wrapping_add(worth);
        self.remove_used(c.key);
        self.joker_selling_card_pass();
        Ok(())
    }
}

// ---- packs ---------------------------------------------------------------

impl RunModel {
    /// A pack in the shop is bought and opened.
    #[verifier::opaque]
    pub open spec fn pack_bought(self, slot: usize) -> Turn {
        if self.state != State::Shop || self.shop is None {
            Turn::refused(self, Refusal::WrongState)
        } else {
            let shop = self.shop->0;
            if slot >= shop.packs.len() {
                Turn::refused(self, Refusal::BadSlot("pack slot "@ + text::decimal(slot as int)))
            } else if shop.packs[slot as int].used {
                Turn::refused(self, Refusal::BadSlot("pack already opened"@))
            } else {
                let offer = shop.packs[slot as int];
                let cost = self.pack_price(offer);
                if !self.affords(cost) {
                    Turn::refused(self, Refusal::InsufficientFunds)
                } else {
                    let packs = shop.packs.update(slot as int, PackOffer { used: true, ..offer });
                    let m = RunModel { shop: Some(ShopModel { packs, ..shop }), ..self };
                    let m1 = if cost > 0 {
                        m.charged(cost)
                    } else {
                        m
                    };
                    Turn::done(m1.pack_opened(offer.key, PackReturn::Shop))
                }
            }
        }
    }

    /// Whether a card can be taken out of the open pack.
    pub open spec fn can_pick(self, idx: usize) -> bool {
        match self.pack {
            None => false,
            Some(pack) => idx < pack.items.len() && match pack.items[idx as int] {
                PackItem::Joker(j) => self.seats(j.edition),
                PackItem::Consumable(c) => self.has_use(c.key@),
                PackItem::PlayingCard(_) => true,
            },
        }
    }

    /// The hand goes to the bottom of the deck, card by card.
    pub open spec fn hand_returned(self) -> RunModel {
        RunModel { deck: self.hand.reverse() + self.deck, hand: seq![], ..self }
    }

    /// The pack closes.
    #[verifier::opaque]
    pub open spec fn pack_finished(self) -> RunModel {
        match self.pack {
            None => self,
            Some(pack) => {
                let m = (RunModel { pack: None, ..self }).pack_released(
                    pack.items,
                    pack.items.len(),
                );
                let m1 = if pack.hand_dealt {
                    m.hand_returned()
                } else {
                    m
                };
                match pack.return_to {
                    PackReturn::Shop => RunModel { state: State::Shop, ..m1 },
                    PackReturn::BlindSelect => (RunModel {
                        state: State::BlindSelect,
                        ..m1
                    }).choices_tagged(),
                }
            },
        }
    }

    /// A card was taken: there is one choice less, or the pack closes.
    pub open spec fn choice_made(self) -> RunModel {
        match self.pack {
            None => self,
            Some(pack) => if pack.choices_left > 1 && pack.items.len() > 0 {
                RunModel {
                    pack: Some(
                        PackModel { choices_left: (pack.choices_left - 1) as u8, ..pack },
                    ),
                    ..self
                }
            } else {
                self.pack_finished()
            },
        }
    }

    /// The open pack without one of its cards.
    pub open spec fn without_pack_item(self, idx: nat) -> RunModel {
        match self.pack {
            Some(pack) => RunModel {
                pack: Some(PackModel { items: pack.items.remove(idx as int), ..pack }),
                ..self
            },
            None => self,
        }
    }

    /// A card is taken out of the open pack.
    #[verifier::opaque]
    pub open spec fn pack_picked(self, idx: usize, targets: Seq<usize>) -> Turn {
        if self.state != State::PackOpen || self.pack is None {
            Turn::refused(self, Refusal::WrongState)
        } else if idx >= self.pack->0.items.len() {
            Turn::refused(self, Refusal::BadSlot("pack item "@ + text::decimal(idx as int)))
        } else {
            let m = self.without_pack_item(idx as nat);
            match self.pack->0.items[idx as int] {
                PackItem::Joker(j) => if !self.seats(j.edition) {
                    Turn::refused(self, Refusal::NoSpace)
                } else {
                    Turn::done(m.with_joker(j, round::disabling(true)).choice_made())
                },
                PackItem::Consumable(c) => match self.unusable(c.key@, targets) {
                    Some(why) => Turn::refused(self, Refusal::CannotUse(why)),
                    None => {
                        let t = m.used_up(c.key, targets);
                        match t.refusal {
                            Some(_) => t,
                            None => Turn::done(t.run.choice_made()),
                        }
                    },
                },
                PackItem::PlayingCard(card) => Turn::done(m.card_gained(card).choice_made()),
            }
        }
    }

    /// The open pack is skipped.
    #[verifier::opaque]
    pub open spec fn pack_skipped(self) -> Turn {
        if self.state != State::PackOpen {
            Turn::refused(self, Refusal::WrongState)
        } else {
            Turn::done(
                self.with_jokers(self.jokers.map_values(red_card_grown())).pack_finished(),
            )
        }
    }
}

impl Run {
    /// Buy a pack and open it.
    pub fn buy_pack(&mut self, slot: usize) -> (r: Result<(), RunError>)
        ensures
            final(self)@ == old(self)@.pack_bought(slot).run,
            old(self)@.pack_bought(slot).tells(r),
    {
        proof {
            reveal(RunModel::pack_bought);
        }
        if self.state != State::Shop {
            return Err(RunError::WrongState);
        }
        let offer = match &self.shop {
            None => {
                return Err(RunError::WrongState);
            },
            Some(shop) => {
                if slot >= shop.packs.len() {
                    return Err(RunError::BadSlot(with_count("pack slot ", slot)));
                }
                shop.packs[slot]
            },
        };
        if offer.used {
            return Err(RunError::BadSlot("pack already opened".to_owned()));
        }
        let cost: i64 = self.pack_cost(&offer);
        if !self.affordable(cost) {
            return Err(RunError::InsufficientFunds);
        }
        if let Some(shop) = &mut self.shop {
            let mut sold = offer;
            sold.used = true;
            shop.packs.set(slot, sold);
        }
        if cost > 0 {
            self.purse.dollars = self.purse.dollars.wrapping_sub(cost);
        }
        self.open_pack(offer.key, PackReturn::Shop);
        Ok(())
    }

    /// Whether a card can be taken out of the open pack.
    pub fn can_pick_pack_item(&self, idx: usize) -> (r: bool)
        ensures
            r == self@.can_pick(idx),
    {
        match &self.pack {
            None => false,
            Some(pack) => {
                if idx >= pack.items.len() {
                    return false;
                }
                match pack.items[idx] {
                    PackItem::Joker(j) => self.seats(j.edition),
                    PackItem::Consumable(c) => self.consumable_has_any_use(c.key),
                    PackItem::PlayingCard(_) => true,
                }
            },
        }
    }

    fn return_hand(&mut self)
        ensures
            final(self)@ == old(self)@.hand_returned(),
    {
        let mut cards: Vec<Card> = Vec::new();
        assert(cards@ =~= seq![]);
        std::mem::swap(&mut cards, &mut self.hand);
        let ghost m = self@;
        let ghost deck = self.deck@;
        let mut i: usize = 0;
        assert(self.deck@ =~= cards@.take(0).reverse() + deck);
        while i < cards.len()
            invariant
                i <= cards.len(),
                self@ == (RunModel { deck: self.deck@, ..m }),
                self.deck@ == cards@.take(i as int).reverse() + deck,
            decreases cards.len() - i,
        {
            self.deck.insert(0, cards[i]);
            i = i + 1;
            assert(self.deck@ =~= cards@.take(i as int).reverse() + deck);
        }
        assert(cards@.take(i as int) =~= cards@);
    }

    fn finish_pack(&mut self)
        ensures
            final(self)@ == old(self)@.pack_finished(),
    {
        proof {
            reveal(RunModel::pack_finished);
        }
        let mut taken: Option<PackState> = None;
        std::mem::swap(&mut taken, &mut self.pack);
        if let Some(pack) = taken {
            self.release_pack(&pack.items);
            if pack.hand_dealt {
                self.return_hand();
            }
            match pack.return_to {
                PackReturn::Shop => {
                    self.state = State::Shop;
                },
                PackReturn::BlindSelect => {
                    self.state = State::BlindSelect;
                    self.apply_new_blind_choice_tags();
                },
            }
        }
    }

    fn make_choice(&mut self)
        ensures
            final(self)@ == old(self)@.choice_made(),
    {
        match &mut self.pack {
            None => {
                return ;
            },
            Some(pack) => {
                if pack.choices_left > 1 && pack.items.len() > 0 {
                    pack.choices_left = pack.choices_left - 1;
                    return ;
                }
            },
        }
        self.finish_pack();
    }

    /// Take a card out of the open pack; a consumable is used at once, on the
    /// cards in some places of the hand.
    pub fn pick_pack_item(&mut self, idx: usize, targets: &[usize]) -> (r: Result<(), RunError>)
        ensures
            final(self)@ == old(self)@.pack_picked(idx, targets@).run,
            old(self)@.pack_picked(idx, targets@).tells(r),
    {
        proof {
            reveal(RunModel::pack_picked);
            reveal(RunModel::unusable);
        }
        if self.state != State::PackOpen {
            return Err(RunError::WrongState);
        }
        let item = match &self.pack {
            None => {
                return Err(RunError::WrongState);
            },
            Some(pack) => {
                if idx >= pack.items.len() {
                    return Err(RunError::BadSlot(with_count("pack item ", idx)));
                }
                pack.items[idx]
            },
        };
        let list = list_of(targets);
        match item {
            PackItem::Joker(j) => {
                if !self.seats(j.edition) {
                    return Err(RunError::NoSpace);
                }
            },
            PackItem::Consumable(c) => {
                if let Err(why) = self.can_use_on(c.key, &list) {
                    return Err(RunError::CannotUse(why));
                }
            },
            PackItem::PlayingCard(_) => {},
        }
        if let Some(pack) = &mut self.pack {
            pack.items.remove(idx);
        }
        match item {
            PackItem::Joker(j) => {
                self.add_joker(j);
            },
            PackItem::Consumable(c) => {
                if let Err(e) = self.use_up(c.key, &list) {
                    return Err(e);
                }
            },
            PackItem::PlayingCard(card) => {
                self.gain_card(card);
            },
        }
        self.make_choice();
        Ok(())
    }

    fn grow_red_cards(&mut self)
        ensures
            final(self)@ == old(self)@.with_jokers(
                old(self)@.jokers.map_values(red_card_grown()),
            ),
    {
        let f = |j: OwnedJoker| -> (r: OwnedJoker)
            ensures
                r == red_card_grown()(j),
            {
                let mut k = j;
                if j.id == JokerId::RedCard && !j.debuffed {
                    k.state.mult = k.state.mult.add(Double::from_i64(3));
                }
                k
            };
        alter(&mut self.jokers, f, Ghost(red_card_grown()));
    }

    /// Skip what is left of the open pack.
    pub fn skip_pack(&mut self) -> (r: Result<(), RunError>)
        ensures
            final(self)@ == old(self)@.pack_skipped().run,
            old(self)@.pack_skipped().tells(r),
    {
        proof {
            reveal(RunModel::pack_skipped);
        }
        if self.state != State::PackOpen {
            return Err(RunError::WrongState);
        }
        self.grow_red_cards();
        self.finish_pack();
        Ok(())
    }
}

} // verus!
