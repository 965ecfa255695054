//! Booster packs.
use crate::cards::{Card, Enhancement, HandType};
use crate::consumables;
use crate::double::Double;
use crate::items;
use crate::items::{ConsumableSet, JokerId, PackKind, PoolSpec, HANDLIST};
use crate::jokers::{resolve_effective, resolved};
use crate::making;
use crate::making::is_above;
use crate::registry::Key;
use crate::rng::Streams;
use crate::run::{Run, RunModel, State};
use crate::scoring::HandsTable;
use crate::shop::{JokerArea, PackItem, PackModel, PackReturn, PackState};
use crate::text;
use crate::text::with_number;
use vstd::prelude::*;

verus! {

/// The most played of the first `n` visible hands, the stronger among equals,
/// and how often it was played.
pub open spec fn telescope(hands: HandsTable, n: nat) -> (Option<HandType>, u32)
    decreases n,
{
    if n == 0 {
        (None, 0)
    } else {
        let (best, most) = telescope(hands, (n - 1) as nat);
        let ht = HANDLIST[n - 1];
        let row = hands.row(ht);
        if row.visible && row.played > most {
            (Some(ht), row.played)
        } else {
            (best, most)
        }
    }
}

fn most_played_visible(hands: &HandsTable) -> (r: Option<HandType>)
    ensures
        r == telescope(*hands, 12).0,
{
    let mut best: Option<HandType> = None;
    let mut most: u32 = 0;
    let mut i: usize = 0;
    while i < 12
        invariant
            i <= 12,
            (best, most) == telescope(*hands, i as nat),
        decreases 12 - i,
    {
        let ht = HANDLIST[i];
        let row = hands.get(ht);
        if row.visible && row.played > most {
            best = Some(ht);
            most = row.played;
        }
        i = i + 1;
    }
    best
}

impl RunModel {
    /// `name` followed by the ante.
    pub open spec fn at_ante(self, name: Key) -> Seq<char> {
        name@ + text::decimal(self.track.ante as int)
    }

    pub open spec fn redeemed(self, key: Key) -> bool {
        self.used_vouchers.dom().contains(key@)
    }

    /// A consumable for a pack.
    pub open spec fn packed(self, key: Key) -> (PackItem, RunModel) {
        (PackItem::Consumable(self.new_consumable(key)), self.made_consumable(key))
    }

    /// A consumable drawn for a pack.
    pub open spec fn pack_consumable(self, set: ConsumableSet, append: Key) -> (PackItem, RunModel) {
        let (key, m) = self.consumable_drawn(set, append, true);
        m.packed(key)
    }

    /// An enhancement drawn from the pool.
    pub open spec fn enhancement_drawn(self, append: Key) -> (Enhancement, RunModel) {
        let (key, m) = self.rolled(PoolSpec::Enhanced { append });
        (items::enhancement_named(key@), m)
    }

    /// A playing card of a Standard Pack.
    #[verifier::opaque]
    pub open spec fn standard_card(self) -> (PackItem, RunModel) {
        let set_key = self.at_ante("stdset");
        let polled = self.after(set_key);
        let (enhancement, m) = if making::above(self.s.unit(set_key), 600) {
            polled.enhancement_drawn("sta")
        } else {
            (Enhancement::Plain, polled)
        };
        let front = self.at_ante("frontsta");
        let card = m.new_card(front);
        let m1 = m.after(front).numbered();
        let ed = self.at_ante("standard_edition");
        let edition = items::polled_edition(
            m1.s.unit(ed),
            Double::of(2),
            true,
            false,
            self.rates.edition,
        );
        let m2 = m1.after(ed);
        let seal_key = self.at_ante("stdseal");
        let sealed = Double::of(1).minus(Double::frac(2, 100).times(Double::of(10))).below(
            m2.s.unit(seal_key),
        );
        let m3 = m2.after(seal_key);
        let type_key = self.at_ante("stdsealtype");
        if sealed {
            let seal = making::polled_seal(m3.s.unit(type_key));
            (
                PackItem::PlayingCard(Card { enhancement, edition, seal, ..card }),
                m3.after(type_key),
            )
        } else {
            (PackItem::PlayingCard(Card { enhancement, edition, ..card }), m3)
        }
    }

    /// The card in place `i` of a pack of some kind.
    #[verifier::opaque]
    pub open spec fn pack_card(self, kind: PackKind, i: nat) -> (PackItem, RunModel) {
        match kind {
            PackKind::Arcana => if self.redeemed("v_omen_globe") {
                let m = self.after("omen_globe"@);
                if making::above(self.s.unit("omen_globe"@), 800) {
                    m.pack_consumable(ConsumableSet::Spectral, "ar2")
                } else {
                    m.pack_consumable(ConsumableSet::Tarot, "ar1")
                }
            } else {
                self.pack_consumable(ConsumableSet::Tarot, "ar1")
            },
            PackKind::Celestial => {
                let seen = if self.redeemed("v_telescope") && i == 0 {
                    telescope(self.record.hands, 12).0
                } else {
                    None
                };
                match seen {
                    Some(ht) => self.packed(consumables::planet_key(ht)),
                    None => self.pack_consumable(ConsumableSet::Planet, "pl1"),
                }
            },
            PackKind::Spectral => self.pack_consumable(ConsumableSet::Spectral, "spe"),
            PackKind::Buffoon => {
                let (j, m) = self.joker_made(None, false, "buf", JokerArea::Pack);
                (PackItem::Joker(j), m)
            },
            PackKind::Standard => self.standard_card(),
        }
    }

    /// The first `n` cards of a pack.
    pub open spec fn pack_filled(self, kind: PackKind, n: nat) -> (Seq<PackItem>, RunModel)
        decreases n,
    {
        if n == 0 {
            (seq![], self)
        } else {
            let (list, m) = self.pack_filled(kind, (n - 1) as nat);
            let (item, m1) = m.pack_card(kind, (n - 1) as nat);
            (list.push(item), m1)
        }
    }

    /// How many Tarot cards the first `n` jokers make when a pack is opened,
    /// and the streams after.
    pub open spec fn hallucinated(self, n: nat) -> (nat, Streams)
        decreases n,
    {
        if n == 0 {
            (0, self.s)
        } else {
            let (count, s) = self.hallucinated((n - 1) as nat);
            let key = self.at_ante("halu");
            match resolved(self.jokers, (n - 1) as usize) {
                Some((t, _)) => if self.jokers[t as int].id == JokerId::Hallucination && count
                    < self.consumable_room() {
                    (
                        if s.unit(key).below(self.rates.prob_normal.over(Double::of(2))) {
                            count + 1
                        } else {
                            count
                        },
                        s.after(key),
                    )
                } else {
                    (count, s)
                },
                None => (count, s),
            }
        }
    }

    /// The Tarot cards of Hallucinations.
    pub open spec fn with_visions(self, n: nat) -> RunModel
        decreases n,
    {
        if n == 0 {
            self
        } else {
            let m = self.with_visions((n - 1) as nat);
            let (key, m1) = m.consumable_drawn(ConsumableSet::Tarot, "hal", false);
            m1.with_consumable(key)
        }
    }

    /// Cards are moved from the deck to the hand as they are.
    pub open spec fn moved(self, n: nat) -> RunModel
        decreases n,
    {
        if n == 0 {
            self
        } else {
            let m = self.moved((n - 1) as nat);
            RunModel { deck: m.deck.drop_last(), hand: m.hand.push(m.deck.last()), ..m }
        }
    }

    /// A hand to choose targets from.
    pub open spec fn targets_dealt(self) -> RunModel {
        let n = if self.deck.len() < self.hand_room() {
            self.deck.len()
        } else {
            self.hand_room()
        };
        let m = self.moved(n);
        RunModel { hand: making::in_order(m.hand), ..m }
    }

    /// A pack is opened: its cards are drawn, the jokers see it, and for some
    /// kinds a hand is dealt.
    #[verifier::opaque]
    pub open spec fn pack_opened(self, key: Key, return_to: PackReturn) -> RunModel {
        match items::booster_named(key@) {
            None => self,
            Some(meta) => {
                let (list, m) = self.pack_filled(meta.kind, meta.cards as nat);
                let (visions, s) = m.hallucinated(m.jokers.len());
                let m1 = (RunModel { s, ..m }).with_visions(visions);
                let deals = meta.kind == PackKind::Arcana || meta.kind == PackKind::Spectral;
                let m2 = if deals {
                    m1.targets_dealt()
                } else {
                    m1
                };
                RunModel {
                    pack: Some(
                        PackModel {
                            key,
                            kind: meta.kind,
                            choices_left: meta.choose,
                            items: list,
                            return_to,
                            hand_dealt: deals,
                        },
                    ),
                    state: State::PackOpen,
                    ..m2
                }
            },
        }
    }
}

impl Run {
    pub(crate) fn redeemed(&self, key: &'static str) -> (r: bool)
        ensures
            r == self@.redeemed(key),
    {
        self.used_vouchers.contains(key)
    }

    fn pack_one(&mut self, key: &'static str) -> (r: PackItem)
        ensures
            (r, final(self)@) == old(self)@.packed(key),
    {
        PackItem::Consumable(self.make_consumable(key))
    }

    fn new_pack_consumable(&mut self, set: ConsumableSet, append: &'static str) -> (r: PackItem)
        ensures
            (r, final(self)@) == old(self)@.pack_consumable(set, append),
    {
        let key = self.create_consumable_key(set, append, true);
        self.pack_one(key)
    }

    pub(crate) fn draw_enhancement(&mut self, append: &'static str) -> (r: Enhancement)
        ensures
            (r, final(self)@) == old(self)@.enhancement_drawn(append),
    {
        let key = self.roll(&PoolSpec::Enhanced { append });
        items::enhancement_from_key(key)
    }

    fn new_standard_pack_card(&mut self) -> (r: PackItem)
        ensures
            (r, final(self)@) == old(self)@.standard_card(),
    {
        proof {
            reveal(RunModel::standard_card);
        }
        let ante: i64 = self.track.ante;
        let enhanced = is_above(self.rng.random(with_number("stdset", ante).as_str()), 600);
        let enhancement = if enhanced {
            self.draw_enhancement("sta")
        } else {
            Enhancement::Plain
        };
        let mut card = self.make_card(with_number("frontsta", ante).as_str());
        card.enhancement = enhancement;
        card.edition = items::poll_edition(
            &mut self.rng,
            with_number("standard_edition", ante).as_str(),
            Double::from_i64(2),
            true,
            false,
            self.rates.edition,
        );
        let poll = self.rng.random(with_number("stdseal", ante).as_str());
        let bar = Double::from_i64(1).sub(Double::lit(2, 100).mul(Double::from_i64(10)));
        if bar.lt(poll) {
            let kind = self.rng.random(with_number("stdsealtype", ante).as_str());
            card.seal = making::seal_from_poll(kind);
        }
        PackItem::PlayingCard(card)
    }

    fn new_pack_card(&mut self, kind: PackKind, i: usize) -> (r: PackItem)
        ensures
            (r, final(self)@) == old(self)@.pack_card(kind, i as nat),
    {
        proof {
            reveal(RunModel::pack_card);
        }
        match kind {
            PackKind::Arcana => {
                if self.redeemed("v_omen_globe") && is_above(self.rng.random("omen_globe"), 800) {
                    self.new_pack_consumable(ConsumableSet::Spectral, "ar2")
                } else {
                    self.new_pack_consumable(ConsumableSet::Tarot, "ar1")
                }
            },
            PackKind::Celestial => {
                let mut seen: Option<HandType> = None;
                if self.redeemed("v_telescope") && i == 0 {
                    seen = most_played_visible(&self.record.hands);
                }
                match seen {
                    Some(ht) => self.pack_one(consumables::planet_for_hand(ht)),
                    None => self.new_pack_consumable(ConsumableSet::Planet, "pl1"),
                }
            },
            PackKind::Spectral => self.new_pack_consumable(ConsumableSet::Spectral, "spe"),
            PackKind::Buffoon => PackItem::Joker(
                self.create_joker(None, false, "buf", JokerArea::Pack),
            ),
            PackKind::Standard => self.new_standard_pack_card(),
        }
    }

    fn fill_pack(&mut self, kind: PackKind, n: usize) -> (r: Vec<PackItem>)
        ensures
            (r@, final(self)@) == old(self)@.pack_filled(kind, n as nat),
    {
        let mut list: Vec<PackItem> = Vec::new();
        assert(list@ =~= seq![]);
        let mut i: usize = 0;
        while i < n
            invariant
                i <= n,
                (list@, self@) == old(self)@.pack_filled(kind, i as nat),
            decreases n - i,
        {
            let item = self.new_pack_card(kind, i);
            list.push(item);
            i = i + 1;
        }
        list
    }

    fn hallucinate(&mut self) -> (r: usize)
        ensures
            (r as nat, final(self)@.s) == old(self)@.hallucinated(old(self)@.jokers.len()),
            final(self)@ == (RunModel { s: final(self)@.s, ..old(self)@ }),
    {
        let room: usize = self.consumable_room();
        let mut count: usize = 0;
        let mut i: usize = 0;
        while i < self.jokers.len()
            invariant
                i <= self.jokers.len(),
                room == old(self)@.consumable_room(),
                count <= room,
                (count as nat, self@.s) == old(self)@.hallucinated(i as nat),
                self@ == (RunModel { s: self@.s, ..old(self)@ }),
            decreases self.jokers.len() - i,
        {
            if let Some((t, _bp)) = resolve_effective(&self.jokers, i) {
                if self.jokers[t].id == JokerId::Hallucination && count < room {
                    let key = with_number("halu", self.track.ante);
                    let poll = self.rng.random(key.as_str());
                    if poll.lt(self.rates.prob_normal.div(Double::from_i64(2))) {
                        count = count + 1;
                    }
                }
            }
            i = i + 1;
        }
        count
    }

    fn add_visions(&mut self, n: usize)
        ensures
            final(self)@ == old(self)@.with_visions(n as nat),
    {
        let mut k: usize = 0;
        while k < n
            invariant
                k <= n,
                self@ == old(self)@.with_visions(k as nat),
            decreases n - k,
        {
            let key = self.create_consumable_key(ConsumableSet::Tarot, "hal", false);
            self.add_consumable(key);
            k = k + 1;
        }
    }

    fn deal_targets(&mut self)
        ensures
            final(self)@ == old(self)@.targets_dealt(),
    {
        let room: usize = self.hand_room();
        let n: usize = if self.deck.len() < room {
            self.deck.len()
        } else {
            room
        };
        let mut k: usize = 0;
        while k < n
            invariant
                k <= n,
                n - k <= self.deck.len(),
                self@ == old(self)@.moved(k as nat),
            decreases n - k,
        {
            if let Some(card) = self.deck.pop() {
                self.hand.push(card);
            }
            k = k + 1;
        }
        making::sort_hand(&mut self.hand);
    }

    pub(crate) fn open_pack(&mut self, key: &'static str, return_to: PackReturn)
        ensures
            final(self)@ == old(self)@.pack_opened(key, return_to),
    {
        proof {
            reveal(RunModel::pack_opened);
        }
        let meta = match items::booster_by_key(key) {
            Some(m) => m,
            None => {
                return ;
            },
        };
        let list = self.fill_pack(meta.kind, meta.cards);
        let visions: usize = self.hallucinate();
        self.add_visions(visions);
        let deals = meta.kind == PackKind::Arcana || meta.kind == PackKind::Spectral;
        if deals {
            self.deal_targets();
        }
        self.pack = Some(
            PackState {
                key,
                kind: meta.kind,
                choices_left: meta.choose,
                items: list,
                return_to,
                hand_dealt: deals,
            },
        );
        self.state = State::PackOpen;
    }
}

} // verus!
