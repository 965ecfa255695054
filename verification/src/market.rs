//! The shop at work: prices, what is laid out, buying, selling and packs.
use crate::cards::{Card, Edition, Enhancement};
use crate::double::Double;
use crate::items;
use crate::items::{ConsumableSet, JokerId};
use crate::jokers;
use crate::making;
use crate::making::is_above;
use crate::packs;
use crate::registry;
use crate::run::{Offers, Rates, Run, RunModel, State};
use crate::shop::{
    JokerArea, OwnedConsumable, OwnedJoker, PackOffer, RunTag, ShopItem, ShopItemKind, ShopModel,
    ShopState, TagContext,
};
use crate::tags;
use crate::text;
use crate::text::{same_text, with_number};
use vstd::prelude::*;

verus! {

// ---- prices --------------------------------------------------------------

/// Whether a consumable is a planet.
pub open spec fn is_planet(key: Seq<char>) -> bool {
    items::consumable_named(key) matches Some((_, set)) && set == ConsumableSet::Planet
}

pub(crate) fn planet_key(key: &str) -> (r: bool)
    ensures
        r == is_planet(key@),
{
    match items::consumable_by_key(key) {
        Some((_, set)) => set == ConsumableSet::Planet,
        None => false,
    }
}

impl RunModel {
    /// The price of something in the shop; with an Astronomer planets are free.
    pub open spec fn item_price(self, item: ShopItem) -> i64 {
        if item.kind matches ShopItemKind::Consumable(c) && self.owns(JokerId::Astronomer)
            && is_planet(c.key@) {
            0
        } else {
            items::price(
                item.plain_cost(),
                item.finish(),
                self.purse.discount_percent,
                item.couponed,
            )
        }
    }

    pub open spec fn voucher_price(self, key: Seq<char>) -> i64 {
        items::price(
            items::base_cost_of(key),
            Edition::Plain,
            self.purse.discount_percent,
            false,
        )
    }

    /// The price of a pack; with an Astronomer Celestial Packs are free.
    pub open spec fn pack_price(self, offer: PackOffer) -> i64 {
        if self.owns(JokerId::Astronomer) && text::opens_with(offer.key@, "p_celestial"@) {
            0
        } else {
            items::price(
                items::base_cost_of(offer.key@),
                Edition::Plain,
                self.purse.discount_percent,
                offer.couponed,
            )
        }
    }

    /// What a joker sells for.
    pub open spec fn joker_worth(self, j: OwnedJoker) -> i64 {
        items::resale(j.id.row().cost, j.edition, self.purse.discount_percent, j.extra_value)
    }

    /// What a consumable sells for; with an Astronomer planets count as free.
    pub open spec fn consumable_worth(self, c: OwnedConsumable) -> i64 {
        if self.owns(JokerId::Astronomer) && is_planet(c.key@) {
            1i64.wrapping_add(c.extra_value)
        } else {
            items::resale(
                items::base_cost_of(c.key@),
                Edition::Plain,
                self.purse.discount_percent,
                c.extra_value,
            )
        }
    }

    /// Whether a joker of an edition finds room.
    pub open spec fn seats(self, edition: Edition) -> bool {
        self.jokers.len() < self.limits.joker_slots + (if edition == Edition::Negative {
            1int
        } else {
            0
        })
    }

    /// Whether something in the shop finds room.
    pub open spec fn fits(self, item: ShopItem) -> bool {
        match item.kind {
            ShopItemKind::Joker(j) => self.seats(j.edition),
            ShopItemKind::Consumable(_) => self.consumables.len() < self.limits.consumable_slots,
            ShopItemKind::PlayingCard(_) => true,
        }
    }

    /// Whether the shop can be rerolled.
    pub open spec fn rerollable(self) -> bool {
        self.state == State::Shop && (self.funds().wrapping_sub(self.reroll.cost) >= 0
            || self.reroll.cost == 0)
    }

    /// Whether anything can be sold.
    pub open spec fn selling(self) -> bool {
        self.state == State::Shop || self.state == State::BlindSelect || self.state
            == State::RoundEval || self.state == State::SelectingHand || self.state
            == State::PackOpen
    }
}

impl Run {
    pub(crate) fn astronomer_owned(&self) -> (r: bool)
        ensures
            r == self@.owns(JokerId::Astronomer),
    {
        self.joker_owned(JokerId::Astronomer)
    }

    /// The price of something in the shop.
    pub fn shop_item_cost(&self, item: &ShopItem) -> (r: i64)
        ensures
            r == self@.item_price(*item),
    {
        if let ShopItemKind::Consumable(c) = item.kind {
            if self.astronomer_owned() && planet_key(c.key) {
                return 0;
            }
        }
        items::item_cost(
            item.base_cost(),
            item.edition(),
            self.purse.discount_percent,
            item.couponed,
        )
    }

    /// The price of a voucher.
    pub fn voucher_cost(&self, key: &str) -> (r: i64)
        ensures
            r == self@.voucher_price(key@),
    {
        items::item_cost(
            items::center_base_cost(key),
            Edition::Plain,
            self.purse.discount_percent,
            false,
        )
    }

    /// The price of a pack.
    pub fn pack_cost(&self, offer: &PackOffer) -> (r: i64)
        ensures
            r == self@.pack_price(*offer),
    {
        if self.astronomer_owned() && text::begins(offer.key, "p_celestial") {
            return 0;
        }
        items::item_cost(
            items::center_base_cost(offer.key),
            Edition::Plain,
            self.purse.discount_percent,
            offer.couponed,
        )
    }

    pub(crate) fn pack_affordable(&self, offer: &PackOffer) -> (r: bool)
        ensures
            r == self@.affords(self@.pack_price(*offer)),
    {
        self.affordable(self.pack_cost(offer))
    }

    /// What a joker sells for.
    pub fn joker_sell_value(&self, j: &OwnedJoker) -> (r: i64)
        ensures
            r == self@.joker_worth(*j),
    {
        items::sell_cost(
            j.id.meta().cost,
            j.edition,
            self.purse.discount_percent,
            j.extra_value,
        )
    }

    /// What a consumable sells for.
    pub fn consumable_sell_value(&self, c: &OwnedConsumable) -> (r: i64)
        ensures
            r == self@.consumable_worth(*c),
    {
        if self.astronomer_owned() && planet_key(c.key) {
            return 1i64.wrapping_add(c.extra_value);
        }
        items::sell_cost(
            items::center_base_cost(c.key),
            Edition::Plain,
            self.purse.discount_percent,
            c.extra_value,
        )
    }

    pub(crate) fn seats(&self, edition: Edition) -> (r: bool)
        ensures
            r == self@.seats(edition),
    {
        if edition == Edition::Negative {
            self.jokers.len() <= self.limits.joker_slots
        } else {
            self.jokers.len() < self.limits.joker_slots
        }
    }

    pub(crate) fn fits(&self, item: &ShopItem) -> (r: bool)
        ensures
            r == self@.fits(*item),
    {
        match item.kind {
            ShopItemKind::Joker(j) => self.seats(j.edition),
            ShopItemKind::Consumable(_) => self.consumables.len() < self.limits.consumable_slots,
            ShopItemKind::PlayingCard(_) => true,
        }
    }

    pub(crate) fn can_buy_shop_item(&self, item: &ShopItem) -> (r: bool)
        ensures
            r == (self@.affords(self@.item_price(*item)) && self@.fits(*item)),
    {
        self.affordable(self.shop_item_cost(item)) && self.fits(item)
    }

    pub(crate) fn can_reroll_shop(&self) -> (r: bool)
        ensures
            r == self@.rerollable(),
    {
        self.state == State::Shop && (self.funds().wrapping_sub(self.reroll.cost) >= 0
            || self.reroll.cost == 0)
    }

    pub(crate) fn can_sell_now(&self) -> (r: bool)
        ensures
            r == self@.selling(),
    {
        self.state == State::Shop || self.state == State::BlindSelect || self.state
            == State::RoundEval || self.state == State::SelectingHand || self.state
            == State::PackOpen
    }
}

// ---- what is laid out ----------------------------------------------------

/// Whether a tag brings a joker into the shop.
pub open spec fn brings_joker(key: Seq<char>) -> bool {
    key == "tag_uncommon"@ || key == "tag_rare"@
}

/// The edition that a tag gives to a joker in the shop.
pub open spec fn tag_edition(key: Seq<char>) -> Option<Edition> {
    if key == "tag_foil"@ {
        Some(Edition::Foil)
    } else if key == "tag_holo"@ {
        Some(Edition::Holo)
    } else if key == "tag_polychrome"@ {
        Some(Edition::Polychrome)
    } else if key == "tag_negative"@ {
        Some(Edition::Negative)
    } else {
        None
    }
}

fn edition_of_tag(key: &str) -> (r: Option<Edition>)
    ensures
        r == tag_edition(key@),
{
    if same_text(key, "tag_foil") {
        Some(Edition::Foil)
    } else if same_text(key, "tag_holo") {
        Some(Edition::Holo)
    } else if same_text(key, "tag_polychrome") {
        Some(Edition::Polychrome)
    } else if same_text(key, "tag_negative") {
        Some(Edition::Negative)
    } else {
        None
    }
}

/// The first tag from `from` on that brings a joker.
pub open spec fn bringing_tag(tags: Seq<RunTag>, from: nat) -> Option<nat>
    decreases tags.len() - from,
{
    if from >= tags.len() {
        None
    } else if brings_joker(tags[from as int].key@) {
        Some(from)
    } else {
        bringing_tag(tags, from + 1)
    }
}

/// The first tag from `from` on that gives an edition.
pub open spec fn finishing_tag(tags: Seq<RunTag>, from: nat) -> Option<nat>
    decreases tags.len() - from,
{
    if from >= tags.len() {
        None
    } else if tag_edition(tags[from as int].key@) is Some {
        Some(from)
    } else {
        finishing_tag(tags, from + 1)
    }
}

fn find_bringing(tags: &Vec<RunTag>) -> (r: Option<usize>)
    ensures
        match r {
            Some(i) => bringing_tag(tags@, 0) == Some(i as nat) && i < tags.len(),
            None => bringing_tag(tags@, 0) is None,
        },
{
    let mut i: usize = 0;
    while i < tags.len()
        invariant
            i <= tags.len(),
            bringing_tag(tags@, 0) == bringing_tag(tags@, i as nat),
        decreases tags.len() - i,
    {
        if same_text(tags[i].key, "tag_uncommon") || same_text(tags[i].key, "tag_rare") {
            return Some(i);
        }
        i = i + 1;
    }
    None
}

fn find_finishing(tags: &Vec<RunTag>) -> (r: Option<usize>)
    ensures
        match r {
            Some(i) => finishing_tag(tags@, 0) == Some(i as nat) && i < tags.len(),
            None => finishing_tag(tags@, 0) is None,
        },
{
    let mut i: usize = 0;
    while i < tags.len()
        invariant
            i <= tags.len(),
            finishing_tag(tags@, 0) == finishing_tag(tags@, i as nat),
        decreases tags.len() - i,
    {
        if edition_of_tag(tags[i].key).is_some() {
            return Some(i);
        }
        i = i + 1;
    }
    None
}

/// Whether a kind of joker is among some jokers, working or not.
pub open spec fn present(jokers: Seq<OwnedJoker>, id: JokerId) -> bool {
    exists|i: int| 0 <= i < jokers.len() && (#[trigger] jokers[i]).id == id
}

/// Whether a rare joker is not among some jokers.
pub open spec fn rare_left(jokers: Seq<OwnedJoker>) -> bool {
    exists|i: int|
        0 <= i < 150 && (#[trigger] registry::joker(i)).rarity == 3 && !present(
            jokers,
            registry::joker(i).id,
        )
}

fn is_present(jokers: &Vec<OwnedJoker>, id: JokerId) -> (r: bool)
    ensures
        r == present(jokers@, id),
{
    let mut i: usize = 0;
    while i < jokers.len()
        invariant
            i <= jokers.len(),
            forall|k: int| 0 <= k < i ==> (#[trigger] jokers@[k]).id != id,
        decreases jokers.len() - i,
    {
        if jokers[i].id == id {
            return true;
        }
        i = i + 1;
    }
    false
}

fn any_rare_left(jokers: &Vec<OwnedJoker>) -> (r: bool)
    ensures
        r == rare_left(jokers@),
{
    let mut i: usize = 0;
    while i < 150
        invariant
            i <= 150,
            forall|k: int|
                0 <= k < i ==> (#[trigger] registry::joker(k)).rarity != 3 || present(
                    jokers@,
                    registry::joker(k).id,
                ),
        decreases 150 - i,
    {
        let meta = registry::joker_at(i);
        if meta.rarity == 3 && !is_present(jokers, meta.id) {
            return true;
        }
        i = i + 1;
    }
    false
}

impl Rates {
    /// How often what comes in a place of the table comes up.
    pub open spec fn at(self, i: nat) -> Double {
        if i == 0 {
            self.joker
        } else if i == 1 {
            self.tarot
        } else if i == 2 {
            self.planet
        } else if i == 3 {
            self.playing_card
        } else {
            self.spectral
        }
    }

    pub open spec fn total(self) -> Double {
        self.joker.plus(self.tarot).plus(self.planet).plus(self.playing_card).plus(self.spectral)
    }

    /// The place whose stretch holds a poll, from `i` on, where `sum` is the end
    /// of the stretch before; the first place if there is none.
    pub open spec fn stretch(self, poll: Double, i: nat, sum: Double) -> nat
        decreases 5 - i,
    {
        if i >= 5 {
            0
        } else if sum.below(poll) && poll.at_most(sum.plus(self.at(i))) {
            i
        } else {
            self.stretch(poll, i + 1, sum.plus(self.at(i)))
        }
    }

    fn get(&self, i: usize) -> (r: Double)
        ensures
            r == self.at(i as nat),
    {
        match i {
            0 => self.joker,
            1 => self.tarot,
            2 => self.planet,
            3 => self.playing_card,
            _ => self.spectral,
        }
    }

    fn sum(&self) -> (r: Double)
        ensures
            r == self.total(),
    {
        self.joker.add(self.tarot).add(self.planet).add(self.playing_card).add(self.spectral)
    }

    fn find(&self, poll: Double) -> (r: usize)
        ensures
            r == self.stretch(poll, 0, Double::of(0)),
    {
        let mut sum = Double::from_i64(0);
        let mut i: usize = 0;
        while i < 5
            invariant
                i <= 5,
                self.stretch(poll, 0, Double::of(0)) == self.stretch(poll, i as nat, sum),
            decreases 5 - i,
        {
            let next = sum.add(self.get(i));
            if sum.lt(poll) && poll.le(next) {
                return i;
            }
            sum = next;
            i = i + 1;
        }
        0
    }
}

/// The edition that a poll of the Illusion stands for.
pub open spec fn illusory(poll: Double) -> Edition {
    if Double::of(1).minus(Double::frac(15, 100)).below(poll) {
        Edition::Polychrome
    } else if Double::frac(5, 10).below(poll) {
        Edition::Holo
    } else {
        Edition::Foil
    }
}

impl RunModel {
    /// A joker without an edition gets one from the first tag that gives any,
    /// and is free.
    pub open spec fn tag_finished(self, item: ShopItem) -> (ShopItem, RunModel) {
        match item.kind {
            ShopItemKind::Joker(j) => if j.edition != Edition::Plain {
                (item, self)
            } else {
                match finishing_tag(self.tags, 0) {
                    Some(i) => {
                        let edition = tag_edition(self.tags[i as int].key@)->0;
                        (
                            ShopItem {
                                kind: ShopItemKind::Joker(OwnedJoker { edition, ..j }),
                                couponed: true,
                            },
                            RunModel { tags: self.tags.remove(i as int), ..self },
                        )
                    },
                    None => (item, self),
                }
            },
            _ => (item, self),
        }
    }

    /// The joker that a tag brings, if it brings one.
    pub open spec fn tag_brought(self, key: Seq<char>) -> (Option<OwnedJoker>, RunModel) {
        if key == "tag_rare"@ {
            if rare_left(self.jokers) {
                let (j, m) = self.joker_made(Some(Double::of(1)), false, "rta", JokerArea::Shop);
                (Some(j), m)
            } else {
                (None, self)
            }
        } else {
            let (j, m) = self.joker_made(
                Some(Double::frac(9, 10)),
                false,
                "uta",
                JokerArea::Shop,
            );
            (Some(j), m)
        }
    }

    /// A consumable for the shop.
    pub open spec fn stall_consumable(self, set: ConsumableSet) -> (ShopItemKind, RunModel) {
        let (key, m) = self.consumable_drawn(set, "sho", false);
        (ShopItemKind::Consumable(m.new_consumable(key)), m.made_consumable(key))
    }

    /// The edition of a playing card in the shop.
    pub open spec fn illusion_polled(self) -> (Edition, RunModel) {
        if self.redeemed("v_illusion") {
            let m = self.after("illusion"@);
            if making::above(self.s.unit("illusion"@), 800) {
                (illusory(m.s.unit("illusion"@)), m.after("illusion"@))
            } else {
                (Edition::Plain, m)
            }
        } else {
            (Edition::Plain, self)
        }
    }

    /// A playing card for the shop.
    #[verifier::opaque]
    pub open spec fn stall_card(self, enhanced: bool) -> (ShopItemKind, RunModel) {
        let (enhancement, m) = if enhanced {
            self.enhancement_drawn("sho")
        } else {
            (Enhancement::Plain, self)
        };
        let key = self.at_ante("frontsho");
        let card = m.new_card(key);
        let (edition, m1) = m.after(key).numbered().illusion_polled();
        (ShopItemKind::PlayingCard(Card { enhancement, edition, ..card }), m1)
    }

    /// Something for a slot whose kind was drawn.
    pub open spec fn stall(self, place: nat, enhanced: bool) -> (ShopItemKind, RunModel) {
        if place == 0 {
            let (j, m) = self.joker_made(None, false, "sho", JokerArea::Shop);
            (ShopItemKind::Joker(j), m)
        } else if place == 1 {
            self.stall_consumable(ConsumableSet::Tarot)
        } else if place == 2 {
            self.stall_consumable(ConsumableSet::Planet)
        } else if place == 4 {
            self.stall_consumable(ConsumableSet::Spectral)
        } else {
            self.stall_card(enhanced)
        }
    }

    /// Something for a slot of the shop.
    #[verifier::opaque]
    pub open spec fn slot_rolled(self) -> (ShopItem, RunModel) {
        let key = self.at_ante("cdt");
        let poll = self.s.unit(key).times(self.rates.total());
        let m = self.after(key);
        let illusion = self.redeemed("v_illusion");
        let enhanced = illusion && making::above(m.s.unit("illusion"@), 600);
        let m1 = if illusion {
            m.after("illusion"@)
        } else {
            m
        };
        let (kind, m2) = m1.stall(self.rates.stretch(poll, 0, Double::of(0)), enhanced);
        (ShopItem { kind, couponed: false }, m2)
    }

    /// What comes into a slot of the shop: the joker of a tag, which is free,
    /// or something drawn.
    #[verifier::opaque]
    pub open spec fn slot_filled(self) -> (ShopItem, RunModel) {
        match bringing_tag(self.tags, 0) {
            Some(i) => {
                let m = RunModel { tags: self.tags.remove(i as int), ..self };
                let (j, m1) = m.tag_brought(self.tags[i as int].key@);
                match j {
                    Some(j) => m1.tag_finished(
                        ShopItem { kind: ShopItemKind::Joker(j), couponed: true },
                    ),
                    None => m1.slot_rolled(),
                }
            },
            None => self.slot_rolled(),
        }
    }

    /// The run with one more thing in its shop.
    pub open spec fn with_item(self, item: ShopItem) -> RunModel {
        match self.shop {
            Some(shop) => RunModel {
                shop: Some(ShopModel { jokers: shop.jokers.push(item), ..shop }),
                ..self
            },
            None => self,
        }
    }

    /// `n` more slots of the shop are filled.
    pub open spec fn stocked(self, n: nat) -> RunModel
        decreases n,
    {
        if n == 0 {
            self
        } else {
            let (item, m) = self.stocked((n - 1) as nat).slot_filled();
            m.with_item(item)
        }
    }

    /// The first `n` things get their editions from tags.
    pub open spec fn items_finished(self, items: Seq<ShopItem>, n: nat) -> (Seq<ShopItem>, RunModel)
        decreases n,
    {
        if n == 0 {
            (seq![], self)
        } else {
            let (done, m) = self.items_finished(items, (n - 1) as nat);
            let (item, m1) = m.tag_finished(items[n - 1]);
            (done.push(item), m1)
        }
    }

    /// Everything in the shop gets its edition from tags.
    pub open spec fn shop_finished(self) -> RunModel {
        match self.shop {
            Some(shop) => {
                let (jokers, m) = self.items_finished(shop.jokers, shop.jokers.len());
                RunModel { shop: Some(ShopModel { jokers, ..shop }), ..m }
            },
            None => self,
        }
    }

    /// One more pack is laid out: the first of the run is a Buffoon Pack.
    pub open spec fn pack_laid(self) -> RunModel {
        let first = !self.offers.first_shop_buffoon;
        let key = if first {
            "p_buffoon_normal_1"
        } else {
            items::rolled_pack(self.s, "shop_pack"@, self.track.ante).key
        };
        let m = if first {
            RunModel { offers: Offers { first_shop_buffoon: true, ..self.offers }, ..self }
        } else {
            self.after(items::pack_key("shop_pack"@, self.track.ante))
        };
        let offer = PackOffer { key, sort_id: m.next_id(), used: false, couponed: false };
        let m1 = m.numbered();
        match m1.shop {
            Some(shop) => RunModel {
                shop: Some(ShopModel { packs: shop.packs.push(offer), ..shop }),
                ..m1
            },
            None => m1,
        }
    }

    /// The voucher of the ante is laid out.
    pub open spec fn voucher_shown(self) -> RunModel {
        match self.offers.current_voucher {
            Some(key) => self.voucher_laid(key, true),
            None => self,
        }
    }

    /// A shop is laid out.
    #[verifier::opaque]
    pub open spec fn shop_laid(self) -> RunModel {
        let m = RunModel {
            shop: Some(ShopModel::empty()),
            ..self.tags_applied(TagContext::ShopStart)
        };
        m.stocked(m.limits.shop_joker_max as nat).shop_finished().voucher_shown().pack_laid(
        ).pack_laid().tags_applied(TagContext::VoucherAdd).tags_applied(TagContext::ShopFinalPass)
    }
}

fn illusory_edition(poll: Double) -> (r: Edition)
    ensures
        r == illusory(poll),
{
    if Double::from_i64(1).sub(Double::lit(15, 100)).lt(poll) {
        Edition::Polychrome
    } else if Double::lit(5, 10).lt(poll) {
        Edition::Holo
    } else {
        Edition::Foil
    }
}

impl Run {
    fn modify_tags_for_item(&mut self, item: ShopItem) -> (r: ShopItem)
        ensures
            (r, final(self)@) == old(self)@.tag_finished(item),
    {
        if let ShopItemKind::Joker(j) = item.kind {
            if j.edition == Edition::Plain {
                if let Some(i) = find_finishing(&self.tags) {
                    let tag = self.tags.remove(i);
                    if let Some(edition) = edition_of_tag(tag.key) {
                        let mut k = j;
                        k.edition = edition;
                        return ShopItem { kind: ShopItemKind::Joker(k), couponed: true };
                    }
                    proof {
                        lemma_finishing(old(self)@.tags, 0);
                    }
                }
            }
        }
        item
    }

    fn bring_joker(&mut self, key: &str) -> (r: Option<OwnedJoker>)
        ensures
            (r, final(self)@) == old(self)@.tag_brought(key@),
    {
        if same_text(key, "tag_rare") {
            if any_rare_left(&self.jokers) {
                Some(self.create_joker(Some(Double::from_i64(1)), false, "rta", JokerArea::Shop))
            } else {
                None
            }
        } else {
            Some(self.create_joker(Some(Double::lit(9, 10)), false, "uta", JokerArea::Shop))
        }
    }

    fn stall_consumable(&mut self, set: ConsumableSet) -> (r: ShopItemKind)
        ensures
            (r, final(self)@) == old(self)@.stall_consumable(set),
    {
        let key = self.create_consumable_key(set, "sho", false);
        let c = self.make_consumable(key);
        ShopItemKind::Consumable(c)
    }

    fn poll_illusion(&mut self) -> (r: Edition)
        ensures
            (r, final(self)@) == old(self)@.illusion_polled(),
    {
        if self.redeemed("v_illusion") && is_above(self.rng.random("illusion"), 800) {
            let poll = self.rng.random("illusion");
            illusory_edition(poll)
        } else {
            Edition::Plain
        }
    }

    fn stall_card(&mut self, enhanced: bool) -> (r: ShopItemKind)
        ensures
            (r, final(self)@) == old(self)@.stall_card(enhanced),
    {
        proof {
            reveal(RunModel::stall_card);
        }
        let enhancement = if enhanced {
            self.draw_enhancement("sho")
        } else {
            Enhancement::Plain
        };
        let key = with_number("frontsho", self.track.ante);
        let mut card = self.make_card(key.as_str());
        card.enhancement = enhancement;
        card.edition = self.poll_illusion();
        ShopItemKind::PlayingCard(card)
    }

    fn stall(&mut self, place: usize, enhanced: bool) -> (r: ShopItemKind)
        ensures
            (r, final(self)@) == old(self)@.stall(place as nat, enhanced),
    {
        match place {
            0 => ShopItemKind::Joker(self.create_joker(None, false, "sho", JokerArea::Shop)),
            1 => self.stall_consumable(ConsumableSet::Tarot),
            2 => self.stall_consumable(ConsumableSet::Planet),
            4 => self.stall_consumable(ConsumableSet::Spectral),
            _ => self.stall_card(enhanced),
        }
    }

    fn roll_slot(&mut self) -> (r: ShopItem)
        ensures
            (r, final(self)@) == old(self)@.slot_rolled(),
    {
        proof {
            reveal(RunModel::slot_rolled);
        }
        let key = with_number("cdt", self.track.ante);
        let poll = self.rng.random(key.as_str()).mul(self.rates.sum());
        let enhanced = self.redeemed("v_illusion") && is_above(self.rng.random("illusion"), 600);
        let place: usize = self.rates.find(poll);
        let kind = self.stall(place, enhanced);
        ShopItem { kind, couponed: false }
    }

    fn create_card_for_shop(&mut self) -> (r: ShopItem)
        ensures
            (r, final(self)@) == old(self)@.slot_filled(),
    {
        proof {
            reveal(RunModel::slot_filled);
        }
        if let Some(i) = find_bringing(&self.tags) {
            let tag = self.tags.remove(i);
            if let Some(j) = self.bring_joker(tag.key) {
                let item = ShopItem { kind: ShopItemKind::Joker(j), couponed: true };
                return self.modify_tags_for_item(item);
            }
        }
        self.roll_slot()
    }

    pub(crate) fn stock(&mut self, n: usize)
        ensures
            final(self)@ == old(self)@.stocked(n as nat),
    {
        let ghost m = self@;
        let mut k: usize = 0;
        while k < n
            invariant
                k <= n,
                self@ == m.stocked(k as nat),
            decreases n - k,
        {
            let item = self.create_card_for_shop();
            if let Some(shop) = &mut self.shop {
                shop.jokers.push(item);
            }
            k = k + 1;
        }
    }

    pub(crate) fn apply_store_joker_modify_tags(&mut self)
        ensures
            final(self)@ == old(self)@.shop_finished(),
    {
        let mut taken: Option<ShopState> = None;
        std::mem::swap(&mut taken, &mut self.shop);
        if let Some(mut shop) = taken {
            let mut done: Vec<ShopItem> = Vec::new();
            let mut i: usize = 0;
            assert(done@ =~= seq![]);
            let ghost m = old(self)@;
            while i < shop.jokers.len()
                invariant
                    i <= shop.jokers.len(),
                    done@ == m.items_finished(shop.jokers@, i as nat).0,
                    self@ == (RunModel {
                        shop: None,
                        ..m.items_finished(shop.jokers@, i as nat).1
                    }),
                decreases shop.jokers.len() - i,
            {
                let item = self.modify_tags_for_item(shop.jokers[i]);
                done.push(item);
                i = i + 1;
            }
            shop.jokers = done;
            self.shop = Some(shop);
        }
    }

    fn lay_pack(&mut self)
        ensures
            final(self)@ == old(self)@.pack_laid(),
    {
        let key: &'static str = if !self.offers.first_shop_buffoon {
            self.offers.first_shop_buffoon = true;
            "p_buffoon_normal_1"
        } else {
            items::get_pack_roll(&mut self.rng, "shop_pack", self.track.ante).key
        };
        let sort_id: u32 = self.next_sort_id();
        if let Some(shop) = &mut self.shop {
            shop.packs.push(PackOffer { key, sort_id, used: false, couponed: false });
        }
    }

    pub(crate) fn generate_shop(&mut self)
        ensures
            final(self)@ == old(self)@.shop_laid(),
    {
        proof {
            reveal(RunModel::shop_laid);
        }
        self.apply_tags(TagContext::ShopStart);
        self.shop = Some(ShopState::default());
        self.stock(self.limits.shop_joker_max);
        self.apply_store_joker_modify_tags();
        if let Some(key) = self.offers.current_voucher {
            self.lay_voucher(key, true);
        }
        self.lay_pack();
        self.lay_pack();
        self.apply_tags(TagContext::VoucherAdd);
        self.apply_tags(TagContext::ShopFinalPass);
    }
}

/// The tag that gives an edition gives one.
proof fn lemma_finishing(tags: Seq<RunTag>, from: nat)
    ensures
        finishing_tag(tags, from) matches Some(i) ==> from <= i < tags.len() && tag_edition(
            tags[i as int].key@,
        ) is Some,
    decreases tags.len() - from,
{
    if from < tags.len() {
        lemma_finishing(tags, from + 1);
    }
}

} // verus!
