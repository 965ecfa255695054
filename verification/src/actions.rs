//! What can be done next, and how tools steer a run.
use crate::blinds;
use crate::cards::{Card, HandType};
use crate::deck;
use crate::deck::pseudoshuffle;
use crate::items;
use crate::rng::{RngState, Streams};
use crate::run::{Action, BlindStage, Offers, Purse, Run, RunModel, State, Track};
use crate::shop::{PackOffer, ShopItem, VoucherOffer};
use vstd::prelude::*;

verus! {

// ---- what can be done ----------------------------------------------------

impl RunModel {
    /// The sales of the first `n` jokers.
    pub open spec fn joker_sales(self, n: nat) -> Seq<Action>
        decreases n,
    {
        if n == 0 {
            seq![]
        } else {
            self.joker_sales((n - 1) as nat).push(Action::SellJoker((n - 1) as usize))
        }
    }

    /// The sales and uses of the first `n` consumables.
    pub open spec fn consumable_choices(self, n: nat) -> Seq<Action>
        decreases n,
    {
        if n == 0 {
            seq![]
        } else {
            let i = (n - 1) as usize;
            let list = self.consumable_choices((n - 1) as nat).push(Action::SellConsumable(i));
            if self.has_use(self.consumables[n - 1].key@) {
                list.push(Action::UseConsumable(i))
            } else {
                list
            }
        }
    }

    /// What can be done with what is owned.
    pub open spec fn own_choices(self) -> Seq<Action> {
        self.joker_sales(self.jokers.len()) + self.consumable_choices(self.consumables.len())
    }

    /// What can be bought of the first `n` things in the shop.
    pub open spec fn item_choices(self, list: Seq<ShopItem>, n: nat) -> Seq<Action>
        decreases n,
    {
        if n == 0 {
            seq![]
        } else {
            let rest = self.item_choices(list, (n - 1) as nat);
            let item = list[n - 1];
            let i = (n - 1) as usize;
            if self.affords(self.item_price(item)) && self.fits(item) {
                if item.consumable() {
                    rest.push(Action::BuyShopItem(i)).push(Action::BuyAndUseShopItem(i))
                } else {
                    rest.push(Action::BuyShopItem(i))
                }
            } else {
                rest
            }
        }
    }

    /// Which of the first `n` vouchers can be redeemed.
    pub open spec fn voucher_choices(self, list: Seq<VoucherOffer>, n: nat) -> Seq<Action>
        decreases n,
    {
        if n == 0 {
            seq![]
        } else {
            let rest = self.voucher_choices(list, (n - 1) as nat);
            if self.affords(self.voucher_price(list[n - 1].key@)) {
                rest.push(Action::RedeemVoucher((n - 1) as usize))
            } else {
                rest
            }
        }
    }

    /// Which of the first `n` packs can be bought.
    pub open spec fn pack_choices(self, list: Seq<PackOffer>, n: nat) -> Seq<Action>
        decreases n,
    {
        if n == 0 {
            seq![]
        } else {
            let rest = self.pack_choices(list, (n - 1) as nat);
            if !list[n - 1].used && self.affords(self.pack_price(list[n - 1])) {
                rest.push(Action::BuyPack((n - 1) as usize))
            } else {
                rest
            }
        }
    }

    /// Which of the first `n` cards of the open pack can be taken.
    pub open spec fn pick_choices(self, n: nat) -> Seq<Action>
        decreases n,
    {
        if n == 0 {
            seq![]
        } else {
            let rest = self.pick_choices((n - 1) as nat);
            let i = (n - 1) as usize;
            if self.can_pick(i) {
                rest.push(Action::PickPackItem(i))
            } else {
                rest
            }
        }
    }

    /// Which cards of the open pack can be taken.
    pub open spec fn open_pack_choices(self) -> Seq<Action> {
        match self.pack {
            Some(pack) => self.pick_choices(pack.items.len()),
            None => seq![],
        }
    }

    /// What can be bought in the shop.
    pub open spec fn shop_choices(self) -> Seq<Action> {
        match self.shop {
            Some(shop) => self.item_choices(shop.jokers, shop.jokers.len()) + self.voucher_choices(
                shop.vouchers,
                shop.vouchers.len(),
            ) + self.pack_choices(shop.packs, shop.packs.len()),
            None => seq![],
        }
    }

    pub open spec fn only_if(b: bool, a: Action) -> Seq<Action> {
        if b {
            seq![a]
        } else {
            seq![]
        }
    }

    /// What can be done next.
    #[verifier::opaque]
    pub open spec fn choices(self) -> Seq<Action> {
        match self.state {
            State::BlindSelect => seq![Action::SelectBlind] + RunModel::only_if(
                self.track.blind_on_deck != BlindStage::Boss,
                Action::SkipBlind,
            ) + RunModel::only_if(self.can_reroll_boss(), Action::RerollBoss) + self.own_choices(),
            State::SelectingHand => seq![Action::Play] + RunModel::only_if(
                self.round.discards_left > 0,
                Action::Discard,
            ) + self.own_choices(),
            State::RoundEval => seq![Action::CashOut] + self.own_choices(),
            State::Shop => seq![Action::LeaveShop] + self.shop_choices() + RunModel::only_if(
                self.rerollable(),
                Action::Reroll,
            ) + self.own_choices(),
            State::PackOpen => self.open_pack_choices() + seq![Action::SkipPack]
                + self.own_choices(),
            State::GameOver => seq![],
            State::Won => seq![],
        }
    }
}

impl Run {
    fn push_inventory_actions(&self, v: &mut Vec<Action>)
        ensures
            final(v)@ == old(v)@ + self@.own_choices(),
    {
        let ghost before = v@;
        let mut i: usize = 0;
        assert(v@ =~= before + self@.joker_sales(0));
        while i < self.jokers.len()
            invariant
                i <= self.jokers.len(),
                v@ == before + self@.joker_sales(i as nat),
            decreases self.jokers.len() - i,
        {
            v.push(Action::SellJoker(i));
            i = i + 1;
            assert(v@ =~= before + self@.joker_sales(i as nat));
        }
        let ghost sales = before + self@.joker_sales(self@.jokers.len());
        let mut k: usize = 0;
        assert(v@ =~= sales + self@.consumable_choices(0));
        while k < self.consumables.len()
            invariant
                k <= self.consumables.len(),
                v@ == sales + self@.consumable_choices(k as nat),
            decreases self.consumables.len() - k,
        {
            v.push(Action::SellConsumable(k));
            if self.consumable_has_any_use(self.consumables[k].key) {
                v.push(Action::UseConsumable(k));
            }
            k = k + 1;
            assert(v@ =~= sales + self@.consumable_choices(k as nat));
        }
        assert(v@ =~= before + self@.own_choices());
    }

    fn push_item_actions(&self, list: &Vec<ShopItem>, v: &mut Vec<Action>)
        ensures
            final(v)@ == old(v)@ + self@.item_choices(list@, list@.len()),
    {
        let ghost before = v@;
        let mut i: usize = 0;
        assert(v@ =~= before + self@.item_choices(list@, 0));
        while i < list.len()
            invariant
                i <= list.len(),
                v@ == before + self@.item_choices(list@, i as nat),
            decreases list.len() - i,
        {
            if self.can_buy_shop_item(&list[i]) {
                v.push(Action::BuyShopItem(i));
                if list[i].is_consumable() {
                    v.push(Action::BuyAndUseShopItem(i));
                }
            }
            i = i + 1;
            assert(v@ =~= before + self@.item_choices(list@, i as nat));
        }
    }

    fn push_voucher_actions(&self, list: &Vec<VoucherOffer>, v: &mut Vec<Action>)
        ensures
            final(v)@ == old(v)@ + self@.voucher_choices(list@, list@.len()),
    {
        let ghost before = v@;
        let mut i: usize = 0;
        assert(v@ =~= before + self@.voucher_choices(list@, 0));
        while i < list.len()
            invariant
                i <= list.len(),
                v@ == before + self@.voucher_choices(list@, i as nat),
            decreases list.len() - i,
        {
            if self.affordable(self.voucher_cost(list[i].key)) {
                v.push(Action::RedeemVoucher(i));
            }
            i = i + 1;
            assert(v@ =~= before + self@.voucher_choices(list@, i as nat));
        }
    }

    fn push_pack_actions(&self, list: &Vec<PackOffer>, v: &mut Vec<Action>)
        ensures
            final(v)@ == old(v)@ + self@.pack_choices(list@, list@.len()),
    {
        let ghost before = v@;
        let mut i: usize = 0;
        assert(v@ =~= before + self@.pack_choices(list@, 0));
        while i < list.len()
            invariant
                i <= list.len(),
                v@ == before + self@.pack_choices(list@, i as nat),
            decreases list.len() - i,
        {
            if !list[i].used && self.pack_affordable(&list[i]) {
                v.push(Action::BuyPack(i));
            }
            i = i + 1;
            assert(v@ =~= before + self@.pack_choices(list@, i as nat));
        }
    }

    fn push_pick_actions(&self, n: usize, v: &mut Vec<Action>)
        ensures
            final(v)@ == old(v)@ + self@.pick_choices(n as nat),
    {
        let ghost before = v@;
        let mut i: usize = 0;
        assert(v@ =~= before + self@.pick_choices(0));
        while i < n
            invariant
                i <= n,
                v@ == before + self@.pick_choices(i as nat),
            decreases n - i,
        {
            if self.can_pick_pack_item(i) {
                v.push(Action::PickPackItem(i));
            }
            i = i + 1;
            assert(v@ =~= before + self@.pick_choices(i as nat));
        }
    }

    fn push_shop_actions(&self, v: &mut Vec<Action>)
        ensures
            final(v)@ == old(v)@ + self@.shop_choices(),
    {
        if let Some(shop) = &self.shop {
            self.push_item_actions(&shop.jokers, v);
            self.push_voucher_actions(&shop.vouchers, v);
            self.push_pack_actions(&shop.packs, v);
        }
        assert(v@ =~= old(v)@ + self@.shop_choices());
    }

    /// What can be done next. Cards are not looked at: a play or a discard may
    /// still be refused for the cards chosen.
    pub fn legal_actions(&self) -> (r: Vec<Action>)
        ensures
            r@ == self@.choices(),
    {
        proof {
            reveal(RunModel::choices);
        }
        let mut v: Vec<Action> = Vec::new();
        match self.state {
            State::BlindSelect => {
                v.push(Action::SelectBlind);
                if self.track.blind_on_deck != BlindStage::Boss {
                    v.push(Action::SkipBlind);
                }
                if self.can_reroll_boss() {
                    v.push(Action::RerollBoss);
                }
                self.push_inventory_actions(&mut v);
            },
            State::SelectingHand => {
                v.push(Action::Play);
                if self.round.discards_left > 0 {
                    v.push(Action::Discard);
                }
                self.push_inventory_actions(&mut v);
            },
            State::RoundEval => {
                v.push(Action::CashOut);
                self.push_inventory_actions(&mut v);
            },
            State::Shop => {
                v.push(Action::LeaveShop);
                self.push_shop_actions(&mut v);
                if self.can_reroll_shop() {
                    v.push(Action::Reroll);
                }
                self.push_inventory_actions(&mut v);
            },
            State::PackOpen => {
                if let Some(pack) = &self.pack {
                    self.push_pick_actions(pack.items.len(), &mut v);
                }
                v.push(Action::SkipPack);
                self.push_inventory_actions(&mut v);
            },
            State::GameOver => {},
            State::Won => {},
        }
        assert(v@ =~= self@.choices());
        v
    }
}

// ---- steering ------------------------------------------------------------

impl RunModel {
    /// Every later draw comes from another seed, and the cards not drawn yet are
    /// shuffled.
    pub open spec fn redetermined(self, seed: Seq<char>) -> RunModel {
        let s = Streams::start(seed);
        RunModel {
            s: s.after("redet"@),
            deck: deck::shuffled(self.deck, s.drawn_seed("redet"@)),
            ..self
        }
    }
}

/// Whether a list of cards came from another by a change of the cards of a
/// number.
pub open spec fn retouched<F: Fn(Card) -> Card>(f: F, id: u32, a: Seq<Card>, b: Seq<Card>) -> bool {
    a.len() == b.len() && forall|i: int|
        0 <= i < a.len() ==> if a[i].sort_id == id {
            call_ensures(f, (a[i],), #[trigger] b[i])
        } else {
            b[i] == a[i]
        }
}

fn modify_in<F: Fn(Card) -> Card>(cards: &mut Vec<Card>, sort_id: u32, f: &F)
    requires
        forall|x: Card| x.sort_id == sort_id ==> call_requires(*f, (x,)),
    ensures
        retouched(*f, sort_id, old(cards)@, final(cards)@),
{
    let mut k: usize = 0;
    while k < cards.len()
        invariant
            k <= cards.len(),
            cards.len() == old(cards).len(),
            forall|x: Card| x.sort_id == sort_id ==> call_requires(*f, (x,)),
            retouched(*f, sort_id, old(cards)@.take(k as int), cards@.take(k as int)),
            forall|i: int| k <= i < cards.len() ==> (#[trigger] cards@[i]) == old(cards)@[i],
        decreases cards.len() - k,
    {
        let ghost before = cards@;
        if cards[k].sort_id == sort_id {
            let c = f(cards[k]);
            cards.set(k, c);
        }
        k = k + 1;
        proof {
            let a = old(cards)@.take(k as int);
            let b = cards@.take(k as int);
            let c = before.take(k - 1);
            assert forall|i: int| 0 <= i < a.len() implies if a[i].sort_id == sort_id {
                call_ensures(*f, (a[i],), #[trigger] b[i])
            } else {
                b[i] == a[i]
            } by {
                if i < k - 1 {
                    assert(b[i] == c[i]);
                }
            }
        }
    }
    assert(old(cards)@.take(k as int) =~= old(cards)@);
    assert(cards@.take(k as int) =~= cards@);
}

impl Run {
    /// Put a boss in place of the one to come.
    pub fn force_boss(&mut self, key: &'static str)
        requires
            old(self)@.state == State::BlindSelect,
            blinds::boss_from(key@, 0) is Some,
        ensures
            final(self)@ == (RunModel {
                track: Track { boss_choice: key, ..old(self)@.track },
                ..old(self)@
            }),
    {
        self.track.boss_choice = key;
    }

    /// Put a tag in place of those of the blinds, and of every tag that would be
    /// drawn; or let tags be drawn again.
    pub fn force_tag(&mut self, key: Option<&'static str>)
        requires
            key matches Some(k) ==> items::tag_named(k@) is Some,
        ensures
            final(self)@ == (RunModel {
                offers: Offers {
                    forced_tag: key,
                    blind_tag_small: match key {
                        Some(k) => k,
                        None => old(self)@.offers.blind_tag_small,
                    },
                    blind_tag_big: match key {
                        Some(k) => k,
                        None => old(self)@.offers.blind_tag_big,
                    },
                    ..old(self)@.offers
                },
                ..old(self)@
            }),
    {
        if let Some(k) = key {
            self.offers.blind_tag_small = k;
            self.offers.blind_tag_big = k;
        }
        self.offers.forced_tag = key;
    }

    /// Set the dollars.
    pub fn debug_set_dollars(&mut self, dollars: i64)
        ensures
            final(self)@ == (RunModel {
                purse: Purse { dollars, ..old(self)@.purse },
                ..old(self)@
            }),
    {
        self.purse.dollars = dollars;
    }

    /// Move a hand up by `amount` levels, or down by a negative amount.
    pub fn level_up_hand(&mut self, ht: HandType, amount: i64)
        ensures
            final(self)@ == old(self)@.with_hands(
                old(self)@.record.hands.leveled_up(ht, amount),
            ),
    {
        self.record.hands.level_up(ht, amount);
    }

    /// Change the card of a number, wherever it is.
    pub fn modify_card<F: Fn(Card) -> Card>(&mut self, sort_id: u32, f: F)
        requires
            forall|x: Card| x.sort_id == sort_id ==> call_requires(f, (x,)),
        ensures
            final(self)@ == (RunModel {
                deck: final(self)@.deck,
                hand: final(self)@.hand,
                discard_pile: final(self)@.discard_pile,
                ..old(self)@
            }),
            retouched(f, sort_id, old(self)@.deck, final(self)@.deck),
            retouched(f, sort_id, old(self)@.hand, final(self)@.hand),
            retouched(f, sort_id, old(self)@.discard_pile, final(self)@.discard_pile),
    {
        modify_in(&mut self.deck, sort_id, &f);
        modify_in(&mut self.hand, sort_id, &f);
        modify_in(&mut self.discard_pile, sort_id, &f);
    }

    /// Draw everything that is not known yet anew, from another seed.
    pub fn redeterminize(&mut self, seed: &str)
        ensures
            final(self)@ == old(self)@.redetermined(seed@),
    {
        self.rng = RngState::new(seed);
        let s = self.rng.pseudoseed("redet");
        pseudoshuffle(&mut self.deck, s);
    }
}

// ---- laws ----------------------------------------------------------------

/// Drawing the unknown anew keeps everything that is known, and the cards that
/// are still to be drawn.
pub proof fn law_redetermining_keeps_what_is_known(m: RunModel, seed: Seq<char>)
    ensures
        m.redetermined(seed) == (RunModel {
            s: m.redetermined(seed).s,
            deck: m.redetermined(seed).deck,
            ..m
        }),
        m.redetermined(seed).deck.to_multiset() == m.deck.to_multiset(),
{
    deck::law_shuffle_permutes(m.deck, Streams::start(seed).drawn_seed("redet"@));
}

/// What is drawn anew does not depend on what was hidden: neither on the order
/// of the deck nor on the streams.
pub proof fn law_redetermining_forgets_what_was_hidden(m: RunModel, n: RunModel, seed: Seq<char>)
    requires
        n == (RunModel { s: n.s, deck: n.deck, ..m }),
        m.deck.to_multiset() == n.deck.to_multiset(),
        deck::distinct_ids(m.deck),
    ensures
        m.redetermined(seed) == n.redetermined(seed),
{
    deck::law_shuffle_ignores_the_order_before(
        m.deck,
        n.deck,
        Streams::start(seed).drawn_seed("redet"@),
    );
}

} // verus!
