//! The course of a round: what jokers see of a run, what they leave to be done,
//! and how a round begins, goes on and ends.
use crate::blinds;
use crate::blinds::{ActiveBlind, BlindProto};
use crate::cards::{Card, Edition, Enhancement, HandType};
use crate::consumables;
use crate::deck;
use crate::double;
use crate::double::Double;
use crate::handeval::EvalMods;
use crate::items::JokerId;
use crate::jokers::effects::MOST_PLAYED_SCAN;
use crate::jokers::engine::Engine;
use crate::jokers::{EngineHooks, JokerEnv, JokerOutbox, OutEvent, Outbox};
use crate::making;
use crate::making::{alter, find_number, numbers_of_cards, numbers_of_jokers, pick_number};
use crate::registry;
use crate::registry::Key;
use crate::run::{
    Counters, Limits, Offers, Purse, Rates, Record, Reroll, Round, Run, RunModel, State, Track,
};
use crate::scoring;
use crate::scoring::JokerHooks;
use crate::shop::{JokerArea, OwnedConsumable, OwnedJoker, RunTag};
use crate::text::same_text;
use vstd::prelude::*;

verus! {

// ---- what jokers see -----------------------------------------------------

/// What jokers count among the playing cards.
#[derive(Debug, Clone, Copy, PartialEq, Eq, Structural)]
pub enum Trait {
    Any,
    Steel,
    StoneCard,
    Enhanced,
    Nine,
}

impl Trait {
    pub open spec fn shown(self, c: Card) -> bool {
        match self {
            Trait::Any => true,
            Trait::Steel => c.enhancement == Enhancement::Steel,
            Trait::StoneCard => c.enhancement == Enhancement::Stone,
            Trait::Enhanced => c.enhancement != Enhancement::Plain,
            Trait::Nine => c.enhancement != Enhancement::Stone && c.rank.0 == 9,
        }
    }

    fn of(self, c: &Card) -> (r: bool)
        ensures
            r == self.shown(*c),
    {
        match self {
            Trait::Any => true,
            Trait::Steel => c.enhancement == Enhancement::Steel,
            Trait::StoneCard => c.enhancement == Enhancement::Stone,
            Trait::Enhanced => c.enhancement != Enhancement::Plain,
            Trait::Nine => c.enhancement != Enhancement::Stone && c.rank.0 == 9,
        }
    }
}

/// How many of the first `n` cards show a trait.
pub open spec fn tally(cards: Seq<Card>, t: Trait, n: nat) -> nat
    decreases n,
{
    if n == 0 {
        0
    } else {
        tally(cards, t, (n - 1) as nat) + (if t.shown(cards[n - 1]) {
            1nat
        } else {
            0
        })
    }
}

fn count_trait(cards: &Vec<Card>, t: Trait) -> (r: usize)
    ensures
        r == tally(cards@, t, cards@.len()),
{
    let mut k: usize = 0;
    let mut i: usize = 0;
    while i < cards.len()
        invariant
            k <= i <= cards.len(),
            k == tally(cards@, t, i as nat),
        decreases cards.len() - i,
    {
        if t.of(&cards[i]) {
            k = k + 1;
        }
        i = i + 1;
    }
    k
}

/// How many of the first `n` planets were used.
pub open spec fn planets_used(usage: Map<Seq<char>, u32>, n: nat) -> nat
    decreases n,
{
    if n == 0 {
        0
    } else {
        planets_used(usage, (n - 1) as nat) + (if usage.dom().contains(
            registry::planet(n - 1).key@,
        ) {
            1nat
        } else {
            0
        })
    }
}

impl RunModel {
    /// How many playing cards show a trait, those in play counted too.
    pub open spec fn tally(self, in_play: Seq<Card>, t: Trait) -> nat {
        tally(self.deck, t, self.deck.len()) + tally(self.hand, t, self.hand.len()) + tally(
            self.discard_pile,
            t,
            self.discard_pile.len(),
        ) + tally(in_play, t, in_play.len())
    }

    /// The chips that the blind asks for.
    pub open spec fn blind_chips(self) -> Double {
        match self.round.active_blind {
            Some(b) => b.chips,
            None => Double::of(0),
        }
    }

    /// What jokers see of the run.
    #[verifier::opaque]
    pub open spec fn env(self, in_play: Seq<Card>) -> JokerEnv {
        JokerEnv {
            ante: self.track.ante,
            prob_normal: self.rates.prob_normal,
            deck_len: self.deck.len() as usize,
            discards_left: self.round.discards_left,
            discards_used_round: self.round.discards_used,
            hands_left: self.round.hands_left,
            hands_played_round: self.round.hands_played,
            hands_played_total: self.record.hands_played_total,
            dollars: self.purse.dollars,
            skips: self.record.skips,
            consumables_len: self.consumables.len() as usize,
            consumable_slots: self.limits.consumable_slots,
            joker_slots: self.limits.joker_slots,
            tarots_used: self.record.tarots_used,
            planets_used: planets_used(self.consumable_usage, 12) as i64,
            mail_card_id: self.marks.mail_card_id,
            idol_card: self.marks.idol_card,
            ancient_suit: self.marks.ancient_suit,
            castle_suit: self.marks.castle_suit,
            discount_percent: self.purse.discount_percent,
            observatory: self.used_vouchers.dom().contains("v_observatory"@),
            playing_cards_len: self.tally(in_play, Trait::Any) as usize,
            starting_deck_size: 52,
            steel_tally: self.tally(in_play, Trait::Steel) as i64,
            stone_tally: self.tally(in_play, Trait::StoneCard) as i64,
            driver_tally: self.tally(in_play, Trait::Enhanced) as i64,
            nine_tally: self.tally(in_play, Trait::Nine) as i64,
            blind_is_boss: self.round.active_blind matches Some(b) && b.proto.is_boss,
            blind_chips: self.blind_chips(),
            game_chips: self.round.chips,
            sort_id_base: self.counters.sort_id,
        }
    }

    /// The keys of the consumables held.
    pub open spec fn held_keys(self) -> Seq<Key> {
        Seq::new(self.consumables.len(), |i: int| self.consumables[i].key)
    }

    /// The jokers at work in the run.
    pub open spec fn engine(self, in_play: Seq<Card>) -> Engine {
        Engine {
            jokers: self.jokers,
            env: self.env(in_play),
            keys: self.held_keys(),
            out: Outbox::empty(),
        }
    }

    /// The jokers' modifiers of what counts as a hand.
    pub open spec fn mods(self) -> EvalMods {
        EvalMods {
            four_fingers: self.owns(JokerId::FourFingers),
            shortcut: self.owns(JokerId::Shortcut),
            smeared: self.owns(JokerId::Smeared),
        }
    }
}

impl Run {
    fn tally(&self, in_play: &Vec<Card>, t: Trait) -> (r: u128)
        ensures
            r == self@.tally(in_play@, t),
    {
        (count_trait(&self.deck, t) as u128) + (count_trait(&self.hand, t) as u128) + (count_trait(
            &self.discard_pile,
            t,
        ) as u128) + (count_trait(in_play, t) as u128)
    }

    fn planets_used(&self) -> (r: usize)
        ensures
            r == planets_used(self@.consumable_usage, 12),
    {
        let mut k: usize = 0;
        let mut i: usize = 0;
        while i < 12
            invariant
                k <= i <= 12,
                k == planets_used(self@.consumable_usage, i as nat),
            decreases 12 - i,
        {
            if self.consumable_usage.contains(registry::planet_at(i).key) {
                k = k + 1;
            }
            i = i + 1;
        }
        k
    }

    fn held_keys(&self) -> (r: Vec<&'static str>)
        ensures
            r@ == self@.held_keys(),
    {
        let mut list: Vec<&'static str> = Vec::new();
        let mut i: usize = 0;
        while i < self.consumables.len()
            invariant
                i <= self.consumables.len(),
                list@ == self@.held_keys().take(i as int),
            decreases self.consumables.len() - i,
        {
            list.push(self.consumables[i].key);
            i = i + 1;
            assert(list@ =~= self@.held_keys().take(i as int));
        }
        assert(list@ =~= self@.held_keys());
        list
    }

    /// The chips that the blind asks for; none between rounds.
    pub fn blind_chips(&self) -> (r: Double)
        ensures
            r == self@.blind_chips(),
    {
        match self.round.active_blind {
            Some(b) => b.chips,
            None => Double::from_i64(0),
        }
    }

    pub(crate) fn joker_env_with(&self, in_play: &Vec<Card>) -> (r: JokerEnv)
        ensures
            r == self@.env(in_play@),
    {
        proof {
            reveal(RunModel::env);
        }
        JokerEnv {
            ante: self.track.ante,
            prob_normal: self.rates.prob_normal,
            deck_len: self.deck.len(),
            discards_left: self.round.discards_left,
            discards_used_round: self.round.discards_used,
            hands_left: self.round.hands_left,
            hands_played_round: self.round.hands_played,
            hands_played_total: self.record.hands_played_total,
            dollars: self.purse.dollars,
            skips: self.record.skips,
            consumables_len: self.consumables.len(),
            consumable_slots: self.limits.consumable_slots,
            joker_slots: self.limits.joker_slots,
            tarots_used: self.record.tarots_used,
            planets_used: self.planets_used() as i64,
            mail_card_id: self.marks.mail_card_id,
            idol_card: self.marks.idol_card,
            ancient_suit: self.marks.ancient_suit,
            castle_suit: self.marks.castle_suit,
            discount_percent: self.purse.discount_percent,
            observatory: self.used_vouchers.contains("v_observatory"),
            playing_cards_len: self.tally(in_play, Trait::Any) as usize,
            starting_deck_size: 52,
            steel_tally: self.tally(in_play, Trait::Steel) as i64,
            stone_tally: self.tally(in_play, Trait::StoneCard) as i64,
            driver_tally: self.tally(in_play, Trait::Enhanced) as i64,
            nine_tally: self.tally(in_play, Trait::Nine) as i64,
            blind_is_boss: match self.round.active_blind {
                Some(b) => b.proto.is_boss,
                None => false,
            },
            blind_chips: self.blind_chips(),
            game_chips: self.round.chips,
            sort_id_base: self.counters.sort_id,
        }
    }

    /// Hand the jokers over to work; they come back with `settle`.
    pub(crate) fn open_window(&mut self, in_play: &Vec<Card>) -> (r: EngineHooks)
        ensures
            r@ == old(self)@.engine(in_play@),
            final(self)@ == (RunModel { jokers: seq![], ..old(self)@ }),
    {
        let env = self.joker_env_with(in_play);
        let keys = self.held_keys();
        let mut jokers: Vec<OwnedJoker> = Vec::new();
        assert(jokers@ =~= seq![]);
        std::mem::swap(&mut jokers, &mut self.jokers);
        EngineHooks::new(jokers, env, keys)
    }

    pub(crate) fn live_eval_mods(&self) -> (r: EvalMods)
        ensures
            r == self@.mods(),
    {
        EvalMods {
            four_fingers: self.joker_owned(JokerId::FourFingers),
            shortcut: self.joker_owned(JokerId::Shortcut),
            smeared: self.joker_owned(JokerId::Smeared),
        }
    }

    /// The jokers' modifiers of what counts as a hand.
    pub fn eval_mods(&self) -> (r: EvalMods)
        ensures
            r == self@.mods(),
    {
        self.live_eval_mods()
    }
}

// ---- what jokers leave to be done ----------------------------------------

/// Cards turned face up.
pub open spec fn faced_up(cards: Seq<Card>) -> Seq<Card> {
    cards.map_values(|c: Card| Card { face_down: false, ..c })
}

/// Cards without their debuffs.
pub open spec fn undebuffed(cards: Seq<Card>) -> Seq<Card> {
    cards.map_values(|c: Card| Card { debuff: false, ..c })
}

/// Cards as if not played in this ante.
pub open spec fn unplayed(cards: Seq<Card>) -> Seq<Card> {
    cards.map_values(|c: Card| Card { played_this_ante: false, ..c })
}

pub(crate) fn face_up(cards: &mut Vec<Card>)
    ensures
        final(cards)@ == faced_up(old(cards)@),
{
    let ghost g = |c: Card| Card { face_down: false, ..c };
    let f = |c: Card| -> (r: Card)
        ensures
            r == (Card { face_down: false, ..c }),
        { Card { face_down: false, ..c } };
    alter(cards, f, Ghost(g));
}

fn clear_debuffs(cards: &mut Vec<Card>)
    ensures
        final(cards)@ == undebuffed(old(cards)@),
{
    let ghost g = |c: Card| Card { debuff: false, ..c };
    let f = |c: Card| -> (r: Card)
        ensures
            r == (Card { debuff: false, ..c }),
        { Card { debuff: false, ..c } };
    alter(cards, f, Ghost(g));
}

fn forget_played(cards: &mut Vec<Card>)
    ensures
        final(cards)@ == unplayed(old(cards)@),
{
    let ghost g = |c: Card| Card { played_this_ante: false, ..c };
    let f = |c: Card| -> (r: Card)
        ensures
            r == (Card { played_this_ante: false, ..c }),
        { Card { played_this_ante: false, ..c } };
    alter(cards, f, Ghost(g));
}

/// Disabling a blind while its round ends.
pub open spec fn hushing() -> spec_fn(RunModel) -> RunModel {
    |m: RunModel| m.hushed()
}

/// How a blind is disabled, whether or not the round may end by that.
pub open spec fn disabling(may_end: bool) -> spec_fn(RunModel) -> RunModel {
    if may_end {
        |m: RunModel| m.disabled()
    } else {
        hushing()
    }
}

/// 1 if a round may end, else 0: a round that ends because its blind was
/// disabled cannot end once more.
pub open spec fn depth(may_end: bool) -> int {
    if may_end {
        1
    } else {
        0
    }
}

impl RunModel {
    pub open spec fn resized(self, n: int) -> RunModel {
        RunModel {
            round: Round { hand_size: self.round.hand_size.wrapping_add(n as i64), ..self.round },
            ..self
        }
    }

    pub open spec fn with_discards(self, n: int) -> RunModel {
        RunModel {
            limits: Limits { discards: self.limits.discards.wrapping_add(n as i64), ..self.limits },
            round: Round { discards_left: self.round.discards_left.wrapping_add(n as i64), ..self.round },
            ..self
        }
    }

    #[verifier::opaque]
    pub open spec fn with_free_rerolls(self, n: int) -> RunModel {
        (RunModel {
            reroll: Reroll { free: self.reroll.free.wrapping_add(n as i64), ..self.reroll },
            ..self
        }).reroll_priced(true)
    }

    pub open spec fn with_round_hands(self, n: int) -> RunModel {
        RunModel {
            limits: Limits { hands: self.limits.hands.wrapping_add(n as i64), ..self.limits },
            ..self
        }
    }

    pub open spec fn with_joker_slots(self, slots: usize) -> RunModel {
        RunModel { limits: Limits { joker_slots: slots, ..self.limits }, ..self }
    }

    /// The run after a joker stops doing what it does by being there.
    #[verifier::opaque]
    pub open spec fn passives_off(self, j: OwnedJoker) -> RunModel {
        match j.id {
            JokerId::Juggler => self.resized(-1),
            JokerId::Drunkard => self.with_discards(-1),
            JokerId::MerryAndy => self.resized(1).with_discards(-3),
            JokerId::CreditCard => RunModel {
                purse: Purse { bankrupt_at: self.purse.bankrupt_at.wrapping_add(20), ..self.purse },
                ..self
            },
            JokerId::Chaos => self.with_free_rerolls(-1),
            JokerId::TurtleBean => RunModel {
                round: Round {
                    hand_size: self.round.hand_size.wrapping_sub(j.state.extra.truncated()),
                    ..self.round
                },
                ..self
            },
            JokerId::Oops => RunModel {
                rates: Rates {
                    prob_normal: self.rates.prob_normal.over(Double::of(2)),
                    ..self.rates
                },
                ..self
            },
            JokerId::ToTheMoon => RunModel {
                purse: Purse {
                    interest_amount: self.purse.interest_amount.wrapping_sub(1),
                    ..self.purse
                },
                ..self
            },
            JokerId::Troubadour => self.resized(-2).with_round_hands(1),
            JokerId::Stuntman => self.resized(2),
            _ => self,
        }
    }

    /// The run after a joker starts to do what it does by being there.
    #[verifier::opaque]
    pub open spec fn passives_on(self, j: OwnedJoker, d: spec_fn(RunModel) -> RunModel) -> RunModel
    {
        match j.id {
            JokerId::Juggler => self.resized(1),
            JokerId::Drunkard => self.with_discards(1),
            JokerId::MerryAndy => self.resized(-1).with_discards(3),
            JokerId::CreditCard => RunModel {
                purse: Purse { bankrupt_at: self.purse.bankrupt_at.wrapping_sub(20), ..self.purse },
                ..self
            },
            JokerId::Chicot => if self.faces_live_boss() {
                d(self)
            } else {
                self
            },
            JokerId::Chaos => self.with_free_rerolls(1),
            JokerId::TurtleBean => self.resized(j.state.extra.truncated() as int),
            JokerId::Oops => RunModel {
                rates: Rates {
                    prob_normal: self.rates.prob_normal.times(Double::of(2)),
                    ..self.rates
                },
                ..self
            },
            JokerId::ToTheMoon => RunModel {
                purse: Purse {
                    interest_amount: self.purse.interest_amount.wrapping_add(1),
                    ..self.purse
                },
                ..self
            },
            JokerId::Troubadour => self.resized(2).with_round_hands(-1),
            JokerId::Stuntman => self.resized(-2),
            _ => self,
        }
    }

    /// Whether the blind is a boss that is not disabled.
    pub open spec fn faces_live_boss(self) -> bool {
        self.round.active_blind matches Some(b) && b.proto.is_boss && !b.disabled
    }

    /// The run with one more joker.
    #[verifier::opaque]
    pub open spec fn with_joker(self, j: OwnedJoker, d: spec_fn(RunModel) -> RunModel) -> RunModel
    {
        let m = if j.edition == Edition::Negative {
            self.with_joker_slots(self.limits.joker_slots.wrapping_add(1))
        } else {
            self
        }.passives_on(j, d);
        RunModel { jokers: m.jokers.push(j), ..m }
    }

    /// The run without the joker in a place.
    #[verifier::opaque]
    pub open spec fn without_joker(self, i: nat) -> RunModel {
        let j = self.jokers[i as int];
        let m = RunModel { jokers: self.jokers.remove(i as int), ..self };
        let m1 = if j.debuffed {
            m
        } else {
            m.passives_off(j)
        };
        let m2 = if j.edition == Edition::Negative {
            m1.with_joker_slots(m1.limits.joker_slots.wrapping_sub(1))
        } else {
            m1
        };
        m2.released(j.id.row().key@)
    }

    /// The run after the joker in a place was debuffed, or no longer is.
    #[verifier::opaque]
    pub open spec fn joker_debuffed(self, i: nat, debuff: bool, d: spec_fn(RunModel) -> RunModel) -> RunModel
    {
        let j = self.jokers[i as int];
        if i >= self.jokers.len() || j.debuffed == debuff {
            self
        } else {
            let k = OwnedJoker { debuffed: debuff, ..j };
            let m = RunModel { jokers: self.jokers.update(i as int, k), ..self };
            if debuff {
                m.passives_off(k)
            } else {
                m.passives_on(k, d)
            }
        }
    }

    /// No joker in places `i` to `n` is debuffed any longer.
    #[verifier::opaque]
    pub open spec fn jokers_cleared(self, i: nat, n: nat, d: spec_fn(RunModel) -> RunModel) -> RunModel
        decreases n - i,
    {
        if i >= n {
            self
        } else {
            self.joker_debuffed(i, false, d).jokers_cleared(i + 1, n, d)
        }
    }

    /// Riff-Raff's common jokers.
    #[verifier::opaque]
    pub open spec fn jokers_created(self, count: nat, d: spec_fn(RunModel) -> RunModel) -> RunModel
        decreases count,
    {
        if count == 0 {
            self
        } else {
            let m = self.jokers_created((count - 1) as nat, d);
            let (j, m1) = m.joker_made(Some(Double::of(0)), false, "rif", JokerArea::Direct);
            m1.with_joker(j, d)
        }
    }

    /// The Stone card of a Marble Joker.
    #[verifier::opaque]
    pub open spec fn marble_made(self) -> RunModel {
        let card = Card { enhancement: Enhancement::Stone, ..self.new_card("marb_fr"@) };
        let m = self.after("marb_fr"@).numbered().one_more_card();
        RunModel { deck: seq![card] + m.deck, ..m }
    }

    /// The sealed card of a Certificate.
    #[verifier::opaque]
    pub open spec fn certificate_made(self) -> RunModel {
        let m = self.after("cert_fr"@).numbered().one_more_card();
        let card = Card {
            seal: making::polled_seal(m.s.unit("certsl"@)),
            ..self.new_card("cert_fr"@)
        };
        let stamped = match self.round.active_blind {
            Some(b) => Card {
                debuff: b.debuffs(card, self.owns(JokerId::Pareidolia), self.owns(JokerId::Smeared)),
                ..card
            },
            None => card,
        };
        RunModel { hand: making::in_order(m.hand.push(stamped)), ..m.after("certsl"@) }
    }

    /// Everything sells for one dollar more.
    #[verifier::opaque]
    pub open spec fn gifts_given(self) -> RunModel {
        RunModel {
            jokers: self.jokers.map_values(
                |j: OwnedJoker| OwnedJoker { extra_value: j.extra_value.wrapping_add(1), ..j },
            ),
            consumables: self.consumables.map_values(
                |c: OwnedConsumable|
                    OwnedConsumable { extra_value: c.extra_value.wrapping_add(1), ..c },
            ),
            ..self
        }
    }

    /// One thing that jokers left to be done.
    #[verifier::opaque]
    pub open spec fn event_done(self, e: OutEvent, d: spec_fn(RunModel) -> RunModel) -> RunModel
    {
        match e {
            OutEvent::CreateConsumable(set, append) => {
                let (key, m) = self.consumable_drawn(set, append, false);
                m.with_consumable(key)
            },
            OutEvent::DestroyJoker(id) => match making::found(
                making::joker_ids(self.jokers),
                id,
            ) {
                Some(i) => self.without_joker(i),
                None => self,
            },
            OutEvent::SetGrosMichelExtinct => RunModel {
                pool_flags: self.pool_flags.insert("gros_michel_extinct"@, ()),
                ..self
            },
            OutEvent::CreateJokers(count) => self.jokers_created(count as nat, d),
            OutEvent::DisableBoss => d(self),
            OutEvent::Burglar => RunModel {
                round: Round {
                    discards_left: 0,
                    hands_left: self.round.hands_left.wrapping_add(3),
                    ..self.round
                },
                ..self
            },
            OutEvent::CreateMarbleStone => self.marble_made(),
            OutEvent::CreateCertificate => self.certificate_made(),
            OutEvent::GiftCard => self.gifts_given(),
            OutEvent::TurtleBeanShrink => self.resized(-1),
        }
    }

    /// What jokers left to be done, from place `i` on, in order.
    #[verifier::opaque]
    pub open spec fn events_done(self, events: Seq<OutEvent>, i: nat, d: spec_fn(RunModel) -> RunModel) -> RunModel
        decreases events.len() - i,
    {
        if i >= events.len() {
            self
        } else {
            self.event_done(events[i as int], d).events_done(events, i + 1, d)
        }
    }

    /// The run after everything that jokers left to be done.
    #[verifier::opaque]
    pub open spec fn settled(self, out: Outbox, d: spec_fn(RunModel) -> RunModel) -> RunModel
    {
        (RunModel {
            counters: Counters {
                sort_id: self.counters.sort_id.saturating_add(out.sort_ids_used),
                playing_card: self.counters.playing_card.wrapping_add(out.playing_cards_delta),
            },
            ..self
        }).events_done(out.events, 0, d)
    }

    /// The run with the jokers back from their work, and what they left done.
    pub open spec fn rejoined(self, e: Engine, d: spec_fn(RunModel) -> RunModel) -> RunModel
    {
        (RunModel { jokers: e.jokers, ..self }).settled(e.out, d)
    }

    /// The card that the Manacle kept back is drawn.
    pub open spec fn manacle_drawn(self) -> RunModel {
        if self.deck.len() == 0 {
            self
        } else {
            RunModel {
                deck: self.deck.drop_last(),
                hand: making::in_order(self.hand.push(self.deck.last())),
                ..self
            }
        }
    }

    /// The blind takes back what it did, and does nothing from here on.
    #[verifier::opaque]
    pub open spec fn quieted(self, b: ActiveBlind) -> RunModel {
        let m = RunModel {
            round: Round {
                active_blind: Some(b.after_disable()),
                discards_left: if b.named("The Water"@) {
                    self.round.discards_left.wrapping_add(b.discards_sub)
                } else {
                    self.round.discards_left
                },
                hands_left: if b.named("The Needle"@) {
                    self.round.hands_left.wrapping_add(b.hands_sub)
                } else {
                    self.round.hands_left
                },
                forced_card: if b.named("Cerulean Bell"@) {
                    None
                } else {
                    self.round.forced_card
                },
                ..self.round
            },
            hand: faced_up(self.hand),
            ..self
        };
        let m1 = if b.named("The Manacle"@) {
            m.resized(1).manacle_drawn()
        } else {
            m
        };
        RunModel {
            deck: undebuffed(m1.deck),
            hand: undebuffed(m1.hand),
            discard_pile: undebuffed(m1.discard_pile),
            ..m1
        }
    }

    /// Whether enough was scored.
    pub open spec fn blind_met(self) -> bool {
        Double::of(0).at_most(self.round.chips.minus(self.blind_chips()))
    }

    /// The run after its blind was disabled, whatever was scored.
    pub open spec fn hushed(self) -> RunModel {
        match self.round.active_blind {
            None => self,
            Some(b) => if b.disabled {
                self
            } else {
                self.quieted(b)
            },
        }
    }

    /// The run after its blind was disabled. If enough was scored by that, the
    /// round ends; nothing is left to be disabled then.
    #[verifier::opaque]
    pub open spec fn disabled(self) -> RunModel {
        let live = self.round.active_blind matches Some(b) && !b.disabled;
        let m = self.hushed();
        if live && self.foe().is_boss && m.blind_met() && m.state == State::SelectingHand {
            m.ended(hushing())
        } else {
            m
        }
    }

    /// Whether the round is lost: less was scored than the blind asks for.
    pub open spec fn round_lost(self) -> bool {
        self.round.active_blind matches Some(b) && self.round.chips.minus(b.chips).below(
            Double::of(0),
        )
    }

    /// The run after its round ended: the jokers see it end, and unless the run
    /// is lost, it goes on.
    #[verifier::opaque]
    pub open spec fn ended(self, d: spec_fn(RunModel) -> RunModel) -> RunModel
    {
        let lost = self.round_lost();
        let (saved, e, s) = EngineHooks::at_round_end(
            self.engine(seq![]),
            self.record.hands,
            lost,
            self.s,
        );
        let m = (RunModel { s, ..self }).rejoined(e, d);
        if lost && !saved {
            RunModel { state: State::GameOver, ..m }
        } else {
            m.won_round(d)
        }
    }

    /// The blind of the round.
    pub open spec fn foe(self) -> BlindProto {
        match self.round.active_blind {
            Some(b) => b.proto,
            None => blinds::small_blind(),
        }
    }

    /// What a won round leaves in the record.
    pub open spec fn recorded(self) -> RunModel {
        let boss = self.foe().is_boss;
        RunModel {
            record: Record {
                unused_discards: self.record.unused_discards.wrapping_add(
                    self.round.discards_left,
                ),
                most_played_hand: if boss {
                    most_played(self.record.hands, 12)
                } else {
                    self.record.most_played_hand
                },
                ..self.record
            },
            track: Track {
                won: self.track.won || (self.track.ante == 8 && boss),
                ..self.track
            },
            ..self
        }
    }

    /// How many more consumables find room.
    pub open spec fn consumable_room(self) -> nat {
        if self.consumables.len() < self.limits.consumable_slots {
            (self.limits.consumable_slots - self.consumables.len()) as nat
        } else {
            0
        }
    }

    /// The held cards at the end of a round.
    #[verifier::opaque]
    pub open spec fn held_done(self) -> scoring::RoundCards<Engine> {
        scoring::round_cards::<EngineHooks>(
            scoring::RoundCards {
                hooks: self.engine(seq![]),
                s: self.s,
                dollars: self.purse.dollars,
                planets: 0,
            },
            self.hand,
            self.consumable_room(),
            self.hand.len(),
        )
    }

    /// The planets of the last hand played that blue seals won.
    pub open spec fn with_planets(self, n: nat) -> RunModel
        decreases n,
    {
        match self.record.last_hand_played {
            None => self,
            Some(ht) => if n == 0 {
                self
            } else {
                let m = self.with_planets((n - 1) as nat);
                m.with_consumable(consumables::planet_key(ht))
            },
        }
    }

    /// The interest on the dollars held.
    #[verifier::opaque]
    pub open spec fn interest(self) -> i64 {
        if self.purse.dollars >= 5 {
            let steps = Double::of(self.purse.dollars as int).over(
                Double::of(5),
            ).floored().truncated();
            let cap = cap_steps(self.purse.interest_cap);
            self.purse.interest_amount.wrapping_mul(
                if steps < cap {
                    steps
                } else {
                    cap
                },
            )
        } else {
            0
        }
    }

    /// The Investment Tags pay after a boss.
    pub open spec fn tags_cashed(self) -> RunModel {
        if self.track.last_blind_boss {
            RunModel { tags: tags_but(self.tags, "tag_investment"@, self.tags.len()), ..self }
        } else {
            self
        }
    }

    #[verifier::opaque]
    pub open spec fn tag_payout(self) -> i64 {
        if self.track.last_blind_boss {
            25i64.wrapping_mul(
                (self.tags.len() - tags_but(
                    self.tags,
                    "tag_investment"@,
                    self.tags.len(),
                ).len()) as i64,
            )
        } else {
            0
        }
    }

    /// The payout of a won round: for the blind if it was beaten, a dollar for
    /// each hand left, what jokers and tags pay, and the interest.
    #[verifier::opaque]
    pub open spec fn payout(self, joker_dollars: i64) -> i64 {
        let reward = if self.blind_met() {
            self.foe().dollars
        } else {
            0
        };
        let hands = if self.round.hands_left > 0 {
            reward.wrapping_add(self.round.hands_left)
        } else {
            reward
        };
        hands.wrapping_add(joker_dollars).wrapping_add(self.tag_payout()).wrapping_add(
            self.interest(),
        )
    }

    /// The cards go back into the deck; after a boss the next ante comes.
    #[verifier::opaque]
    pub open spec fn gathered(self) -> RunModel {
        let boss = self.foe().is_boss;
        let m = RunModel {
            deck: undebuffed(self.deck),
            discard_pile: undebuffed(self.discard_pile) + faced_up(undebuffed(self.hand)),
            hand: seq![],
            ..self
        };
        let m1 = if boss {
            let up = RunModel {
                track: Track { ante: m.track.ante.wrapping_add(1), ..m.track },
                ..m
            };
            let (key, m2) = up.voucher_drawn(false);
            RunModel {
                offers: Offers { current_voucher: Some(key), ..m2.offers },
                deck: unplayed(m2.deck),
                discard_pile: unplayed(m2.discard_pile),
                ..m2
            }
        } else {
            m
        };
        RunModel { deck: m1.discard_pile + m1.deck, discard_pile: seq![], ..m1 }
    }

    /// What lasted for the round only goes.
    #[verifier::opaque]
    pub open spec fn expired(self) -> RunModel {
        let m = match self.round.temp_handsize {
            Some(t) => RunModel {
                round: Round {
                    hand_size: self.round.hand_size.wrapping_sub(t),
                    temp_handsize: None,
                    ..self.round
                },
                ..self
            },
            None => self,
        };
        if m.reroll.temp_cost is Some {
            (RunModel { reroll: Reroll { temp_cost: None, ..m.reroll }, ..m }).reroll_priced(true)
        } else {
            m
        }
    }

    /// What jokers look for is drawn anew.
    pub open spec fn marks_reset(self) -> RunModel {
        self.idol_reset().mail_reset().ancient_reset().castle_reset()
    }

    /// The jokers are turned face up.
    pub open spec fn jokers_shown(self) -> RunModel {
        RunModel {
            jokers: self.jokers.map_values(|j: OwnedJoker| OwnedJoker { flipped: false, ..j }),
            ..self
        }
    }

    /// The cash out of a won round is worked out.
    #[verifier::opaque]
    pub open spec fn counted_out(self, d: spec_fn(RunModel) -> RunModel) -> RunModel
    {
        let h = self.held_done();
        let (bonus, e) = EngineHooks::payouts(h.hooks);
        let m = (RunModel {
            s: h.s,
            purse: Purse { dollars: h.dollars, ..self.purse },
            ..self
        }).rejoined(e, d).with_planets(h.planets);
        let cashed = m.tags_cashed();
        RunModel { purse: Purse { pending_cashout: m.payout(bonus), ..m.purse }, ..cashed }
    }

    /// The run after a won round.
    #[verifier::opaque]
    pub open spec fn won_round(self, d: spec_fn(RunModel) -> RunModel) -> RunModel
    {
        let manacle = self.round.active_blind matches Some(b) && b.named("The Manacle"@)
            && !b.disabled;
        let m = self.recorded().counted_out(d);
        let m1 = if manacle {
            m.resized(1)
        } else {
            m
        }.gathered().expired().marks_reset().jokers_shown();
        let m2 = m1.jokers_cleared(0, m1.jokers.len(), d);
        RunModel {
            round: Round { forced_card: None, ..m2.round },
            state: State::RoundEval,
            ..m2
        }
    }
}

/// The most played hand among the first `n` as they are looked through; of
/// hands played equally often the last.
pub open spec fn most_played(hands: scoring::HandsTable, n: nat) -> HandType
    decreases n,
{
    if n == 0 {
        HandType::HighCard
    } else {
        let best = most_played(hands, (n - 1) as nat);
        let ht = MOST_PLAYED_SCAN[n - 1];
        if n == 1 || hands.row(ht).played >= hands.row(best).played {
            ht
        } else {
            best
        }
    }
}

/// The tags among the first `n` with another key.
pub open spec fn tags_but(tags: Seq<RunTag>, key: Seq<char>, n: nat) -> Seq<
    RunTag,
>
    decreases n,
{
    if n == 0 {
        seq![]
    } else {
        let rest = tags_but(tags, key, (n - 1) as nat);
        if tags[n - 1].key@ == key {
            rest
        } else {
            rest.push(tags[n - 1])
        }
    }
}

/// A fifth of the interest cap, rounded towards zero.
pub open spec fn cap_steps(cap: i64) -> i64 {
    if cap >= 0 {
        (cap as int / 5) as i64
    } else {
        (-((-(cap as int)) / 5)) as i64
    }
}

impl Run {
    pub(crate) fn resize(&mut self, n: i64)
        ensures
            final(self)@ == old(self)@.resized(n as int),
    {
        self.round.hand_size = self.round.hand_size.wrapping_add(n);
    }

    pub(crate) fn add_discards(&mut self, n: i64)
        ensures
            final(self)@ == old(self)@.with_discards(n as int),
    {
        self.limits.discards = self.limits.discards.wrapping_add(n);
        self.round.discards_left = self.round.discards_left.wrapping_add(n);
    }

    fn add_free_rerolls(&mut self, n: i64)
        ensures
            final(self)@ == old(self)@.with_free_rerolls(n as int),
    {
        proof {
            reveal(RunModel::with_free_rerolls);
        }
        self.reroll.free = self.reroll.free.wrapping_add(n);
        self.calculate_reroll_cost(true);
    }

    fn add_round_hands(&mut self, n: i64)
        ensures
            final(self)@ == old(self)@.with_round_hands(n as int),
    {
        self.limits.hands = self.limits.hands.wrapping_add(n);
    }

    pub(crate) fn joker_passives_off(&mut self, j: &OwnedJoker)
        ensures
            final(self)@ == old(self)@.passives_off(*j),
    {
        proof {
            reveal(RunModel::passives_off);
        }
        match j.id {
            JokerId::Juggler => {
                self.resize(-1);
            },
            JokerId::Drunkard => {
                self.add_discards(-1);
            },
            JokerId::MerryAndy => {
                self.resize(1);
                self.add_discards(-3);
            },
            JokerId::CreditCard => {
                self.purse.bankrupt_at = self.purse.bankrupt_at.wrapping_add(20);
            },
            JokerId::Chaos => {
                self.add_free_rerolls(-1);
            },
            JokerId::TurtleBean => {
                let n: i64 = j.state.extra.to_i64();
                self.round.hand_size = self.round.hand_size.wrapping_sub(n);
            },
            JokerId::Oops => {
                self.rates.prob_normal = self.rates.prob_normal.div(Double::from_i64(2));
            },
            JokerId::ToTheMoon => {
                self.purse.interest_amount = self.purse.interest_amount.wrapping_sub(1);
            },
            JokerId::Troubadour => {
                self.resize(-2);
                self.add_round_hands(1);
            },
            JokerId::Stuntman => {
                self.resize(2);
            },
            _ => {},
        }
    }

    /// Whether the blind is a boss that is not disabled.
    pub(crate) fn faces_live_boss(&self) -> (r: bool)
        ensures
            r == self@.faces_live_boss(),
    {
        match self.round.active_blind {
            Some(b) => b.proto.is_boss && !b.disabled,
            None => false,
        }
    }

    fn joker_passives_on(&mut self, j: &OwnedJoker, may_end: bool)
        ensures
            final(self)@ == old(self)@.passives_on(*j, disabling(may_end)),
        decreases depth(may_end), 1int, 0int,
    {
        proof {
            reveal(RunModel::passives_on);
        }
        match j.id {
            JokerId::Juggler => {
                self.resize(1);
            },
            JokerId::Drunkard => {
                self.add_discards(1);
            },
            JokerId::MerryAndy => {
                self.resize(-1);
                self.add_discards(3);
            },
            JokerId::CreditCard => {
                self.purse.bankrupt_at = self.purse.bankrupt_at.wrapping_sub(20);
            },
            JokerId::Chicot => {
                if self.faces_live_boss() {
                    self.disable_blind(may_end);
                }
            },
            JokerId::Chaos => {
                self.add_free_rerolls(1);
            },
            JokerId::TurtleBean => {
                let n: i64 = j.state.extra.to_i64();
                self.resize(n);
            },
            JokerId::Oops => {
                self.rates.prob_normal = self.rates.prob_normal.mul(Double::from_i64(2));
            },
            JokerId::ToTheMoon => {
                self.purse.interest_amount = self.purse.interest_amount.wrapping_add(1);
            },
            JokerId::Troubadour => {
                self.resize(2);
                self.add_round_hands(-1);
            },
            JokerId::Stuntman => {
                self.resize(-2);
            },
            _ => {},
        }
    }

    fn take_joker(&mut self, j: OwnedJoker, may_end: bool)
        ensures
            final(self)@ == old(self)@.with_joker(j, disabling(may_end)),
        decreases depth(may_end), 2int, 0int,
    {
        proof {
            reveal(RunModel::with_joker);
        }
        if j.edition == Edition::Negative {
            self.limits.joker_slots = self.limits.joker_slots.wrapping_add(1);
        }
        self.joker_passives_on(&j, may_end);
        self.jokers.push(j);
    }

    /// Add a joker to those that are owned.
    pub(crate) fn add_joker(&mut self, j: OwnedJoker)
        ensures
            final(self)@ == old(self)@.with_joker(j, disabling(true)),
    {
        self.take_joker(j, true);
    }

    pub(crate) fn remove_joker_at(&mut self, idx: usize)
        requires
            idx < old(self).jokers.len(),
        ensures
            final(self)@ == old(self)@.without_joker(idx as nat),
    {
        proof {
            reveal(RunModel::without_joker);
        }
        let j = self.jokers.remove(idx);
        if !j.debuffed {
            self.joker_passives_off(&j);
        }
        if j.edition == Edition::Negative {
            self.limits.joker_slots = self.limits.joker_slots.wrapping_sub(1);
        }
        self.remove_used(j.id.key());
    }

    fn set_joker_debuffed(&mut self, idx: usize, debuff: bool, may_end: bool)
        ensures
            final(self)@ == old(self)@.joker_debuffed(idx as nat, debuff, disabling(may_end)),
        decreases depth(may_end), 2int, 0int,
    {
        proof {
            reveal(RunModel::joker_debuffed);
        }
        if idx >= self.jokers.len() || self.jokers[idx].debuffed == debuff {
            return ;
        }
        let mut j = self.jokers[idx];
        j.debuffed = debuff;
        self.jokers.set(idx, j);
        if debuff {
            self.joker_passives_off(&j);
        } else {
            self.joker_passives_on(&j, may_end);
        }
    }

    fn clear_joker_debuffs(&mut self, may_end: bool)
        ensures
            final(self)@ == old(self)@.jokers_cleared(0, old(self)@.jokers.len(), disabling(may_end)),
        decreases depth(may_end), 3int, 0int,
    {
        proof {
            reveal(RunModel::jokers_cleared);
        }
        let n: usize = self.jokers.len();
        let mut i: usize = 0;
        while i < n
            invariant
                i <= n,
                self@.jokers_cleared(i as nat, n as nat, disabling(may_end))
                    == old(self)@.jokers_cleared(0, n as nat, disabling(may_end)),
            decreases n - i,
        {
            proof {
                reveal(RunModel::jokers_cleared);
            }
            self.set_joker_debuffed(i, false, may_end);
            i = i + 1;
        }
    }

    fn create_jokers(&mut self, count: usize, may_end: bool)
        ensures
            final(self)@ == old(self)@.jokers_created(count as nat, disabling(may_end)),
        decreases depth(may_end), 3int, 0int,
    {
        proof {
            reveal(RunModel::jokers_created);
        }
        let mut i: usize = 0;
        while i < count
            invariant
                i <= count,
                self@ == old(self)@.jokers_created(i as nat, disabling(may_end)),
            decreases count - i,
        {
            proof {
                reveal(RunModel::jokers_created);
            }
            let j = self.create_joker(Some(Double::from_i64(0)), false, "rif", JokerArea::Direct);
            self.take_joker(j, may_end);
            i = i + 1;
        }
    }

    fn create_marble_stone(&mut self)
        ensures
            final(self)@ == old(self)@.marble_made(),
    {
        proof {
            reveal(RunModel::marble_made);
        }
        let mut card = self.make_card("marb_fr");
        self.count_card();
        card.enhancement = Enhancement::Stone;
        let ghost before = self@.deck;
        self.deck.insert(0, card);
        assert(self.deck@ =~= seq![card] + before);
    }

    fn create_certificate(&mut self)
        ensures
            final(self)@ == old(self)@.certificate_made(),
    {
        proof {
            reveal(RunModel::certificate_made);
        }
        let mut card = self.make_card("cert_fr");
        self.count_card();
        card.seal = making::seal_from_poll(self.rng.random("certsl"));
        let pareidolia = self.joker_owned(JokerId::Pareidolia);
        let smeared = self.joker_owned(JokerId::Smeared);
        if let Some(b) = self.round.active_blind {
            card.debuff = b.debuff_card(&card, pareidolia, smeared);
        }
        self.hand.push(card);
        making::sort_hand(&mut self.hand);
    }

    fn give_gifts(&mut self)
        ensures
            final(self)@ == old(self)@.gifts_given(),
    {
        proof {
            reveal(RunModel::gifts_given);
        }
        let ghost g = |j: OwnedJoker| OwnedJoker { extra_value: j.extra_value.wrapping_add(1), ..j };
        let f = |j: OwnedJoker| -> (r: OwnedJoker)
            ensures
                r == (OwnedJoker { extra_value: j.extra_value.wrapping_add(1), ..j }),
            { OwnedJoker { extra_value: j.extra_value.wrapping_add(1), ..j } };
        alter(&mut self.jokers, f, Ghost(g));
        let ghost h = |c: OwnedConsumable|
            OwnedConsumable { extra_value: c.extra_value.wrapping_add(1), ..c };
        let k = |c: OwnedConsumable| -> (r: OwnedConsumable)
            ensures
                r == (OwnedConsumable { extra_value: c.extra_value.wrapping_add(1), ..c }),
            { OwnedConsumable { extra_value: c.extra_value.wrapping_add(1), ..c } };
        alter(&mut self.consumables, k, Ghost(h));
    }

    fn do_event(&mut self, e: OutEvent, may_end: bool)
        ensures
            final(self)@ == old(self)@.event_done(e, disabling(may_end)),
        decreases depth(may_end), 4int, 0int,
    {
        proof {
            reveal(RunModel::event_done);
        }
        match e {
            OutEvent::CreateConsumable(set, append) => {
                let key = self.create_consumable_key(set, append, false);
                self.add_consumable(key);
            },
            OutEvent::DestroyJoker(id) => {
                let ids = numbers_of_jokers(&self.jokers);
                if let Some(i) = find_number(&ids, id) {
                    self.remove_joker_at(i);
                }
            },
            OutEvent::SetGrosMichelExtinct => {
                self.pool_flags.insert("gros_michel_extinct", ());
            },
            OutEvent::CreateJokers(count) => {
                self.create_jokers(count, may_end);
            },
            OutEvent::DisableBoss => {
                self.disable_blind(may_end);
            },
            OutEvent::Burglar => {
                self.round.discards_left = 0;
                self.round.hands_left = self.round.hands_left.wrapping_add(3);
            },
            OutEvent::CreateMarbleStone => {
                self.create_marble_stone();
            },
            OutEvent::CreateCertificate => {
                self.create_certificate();
            },
            OutEvent::GiftCard => {
                self.give_gifts();
            },
            OutEvent::TurtleBeanShrink => {
                self.resize(-1);
            },
        }
    }

    fn apply_joker_outbox(&mut self, out: &JokerOutbox, may_end: bool)
        ensures
            final(self)@ == old(self)@.settled(out@, disabling(may_end)),
        decreases depth(may_end), 6int, 0int,
    {
        proof {
            reveal(RunModel::settled);
            reveal(RunModel::events_done);
        }
        self.counters.sort_id = self.counters.sort_id.saturating_add(out.sort_ids_used);
        self.counters.playing_card = self.counters.playing_card.wrapping_add(
            out.playing_cards_delta,
        );
        let ghost goal = self@.events_done(out.events@, 0, disabling(may_end));
        let mut i: usize = 0;
        while i < out.events.len()
            invariant
                i <= out.events.len(),
                self@.events_done(out.events@, i as nat, disabling(may_end)) == goal,
            decreases out.events.len() - i,
        {
            proof {
                reveal(RunModel::events_done);
            }
            self.do_event(out.events[i], may_end);
            i = i + 1;
        }
    }

    /// Take the jokers back from their work, and do what they left to be done.
    pub(crate) fn rejoin(&mut self, hooks: EngineHooks, may_end: bool)
        ensures
            final(self)@ == old(self)@.rejoined(hooks@, disabling(may_end)),
        decreases depth(may_end), 7int, 0int,
    {
        let EngineHooks { jokers, out, .. } = hooks;
        self.jokers = jokers;
        self.apply_joker_outbox(&out, may_end);
    }

    fn quiet(&mut self, b: ActiveBlind)
        ensures
            final(self)@ == old(self)@.quieted(b),
    {
        proof {
            reveal(RunModel::quieted);
        }
        let mut blind = b;
        blind.disable();
        self.round.active_blind = Some(blind);
        if b.is("The Water") {
            self.round.discards_left = self.round.discards_left.wrapping_add(b.discards_sub);
        }
        face_up(&mut self.hand);
        if b.is("The Needle") {
            self.round.hands_left = self.round.hands_left.wrapping_add(b.hands_sub);
        }
        if b.is("Cerulean Bell") {
            self.round.forced_card = None;
        }
        if b.is("The Manacle") {
            self.resize(1);
            if let Some(card) = self.deck.pop() {
                self.hand.push(card);
                making::sort_hand(&mut self.hand);
            }
        }
        clear_debuffs(&mut self.deck);
        clear_debuffs(&mut self.hand);
        clear_debuffs(&mut self.discard_pile);
    }

    fn blind_met(&self) -> (r: bool)
        ensures
            r == self@.blind_met(),
    {
        Double::from_i64(0).le(self.round.chips.sub(self.blind_chips()))
    }

    fn disable_blind(&mut self, may_end: bool)
        ensures
            final(self)@ == disabling(may_end)(old(self)@),
        decreases depth(may_end), 0int, 0int,
    {
        proof {
            reveal(RunModel::disabled);
        }
        if let Some(b) = self.round.active_blind {
            if !b.disabled {
                self.quiet(b);
                if may_end && b.proto.is_boss && self.blind_met() && self.state
                    == State::SelectingHand {
                    self.end_round_within(false);
                }
            }
        }
    }

    /// Disable the blind. If enough was scored by that, the round ends.
    pub fn disable_boss(&mut self)
        ensures
            final(self)@ == old(self)@.disabled(),
    {
        self.disable_blind(true);
    }

    fn round_lost(&self) -> (r: bool)
        ensures
            r == self@.round_lost(),
    {
        match self.round.active_blind {
            Some(b) => self.round.chips.sub(b.chips).lt(Double::from_i64(0)),
            None => false,
        }
    }

    pub(crate) fn end_round_within(&mut self, may_end: bool)
        ensures
            final(self)@ == old(self)@.ended(disabling(may_end)),
        decreases depth(may_end), 9int, 0int,
    {
        proof {
            reveal(RunModel::ended);
        }
        let lost = self.round_lost();
        let none: Vec<Card> = Vec::new();
        assert(none@ =~= seq![]);
        let mut hooks = self.open_window(&none);
        let saved = hooks.end_of_round(&self.record.hands, lost, &mut self.rng);
        self.rejoin(hooks, may_end);
        if lost && !saved {
            self.state = State::GameOver;
            return ;
        }
        self.win_round(may_end);
    }

    /// The blind of the round.
    fn foe(&self) -> (r: BlindProto)
        ensures
            r == self@.foe(),
    {
        match self.round.active_blind {
            Some(b) => b.proto,
            None => blinds::bl_small(),
        }
    }

    fn most_played(&self) -> (r: HandType)
        ensures
            r == most_played(self@.record.hands, 12),
    {
        let mut best = HandType::HighCard;
        let mut i: usize = 0;
        while i < 12
            invariant
                i <= 12,
                best == most_played(self@.record.hands, i as nat),
            decreases 12 - i,
        {
            let ht = MOST_PLAYED_SCAN[i];
            if i == 0 || self.record.hands.get(ht).played >= self.record.hands.get(best).played {
                best = ht;
            }
            i = i + 1;
        }
        best
    }

    fn record_round(&mut self)
        ensures
            final(self)@ == old(self)@.recorded(),
    {
        let boss = self.foe().is_boss;
        self.record.unused_discards = self.record.unused_discards.wrapping_add(
            self.round.discards_left,
        );
        if self.track.ante == 8 && boss {
            self.track.won = true;
        }
        if boss {
            self.record.most_played_hand = self.most_played();
        }
    }

    pub(crate) fn consumable_room(&self) -> (r: usize)
        ensures
            r == self@.consumable_room(),
    {
        if self.consumables.len() < self.limits.consumable_slots {
            self.limits.consumable_slots - self.consumables.len()
        } else {
            0
        }
    }

    fn add_planets(&mut self, n: usize)
        ensures
            final(self)@ == old(self)@.with_planets(n as nat),
    {
        if let Some(last) = self.record.last_hand_played {
            let mut k: usize = 0;
            while k < n
                invariant
                    k <= n,
                    old(self)@.record.last_hand_played == Some(last),
                    self@ == old(self)@.with_planets(k as nat),
                decreases n - k,
            {
                self.add_consumable(consumables::planet_for_hand(last));
                k = k + 1;
            }
        }
    }

    fn cap_steps(cap: i64) -> (r: i64)
        ensures
            r == cap_steps(cap),
    {
        if cap >= 0 {
            cap / 5
        } else {
            let up: i128 = 0 - (cap as i128);
            (0 - up / 5) as i64
        }
    }

    fn interest(&self) -> (r: i64)
        ensures
            r == self@.interest(),
    {
        proof {
            reveal(RunModel::interest);
        }
        if self.purse.dollars >= 5 {
            let steps: i64 = Double::from_i64(self.purse.dollars).div(
                Double::from_i64(5),
            ).floor().to_i64();
            let cap: i64 = Run::cap_steps(self.purse.interest_cap);
            self.purse.interest_amount.wrapping_mul(
                if steps < cap {
                    steps
                } else {
                    cap
                },
            )
        } else {
            0
        }
    }

    /// Take out the tags with a key; how many they were.
    pub(crate) fn remove_tags(&mut self, key: &str) -> (r: usize)
        ensures
            final(self)@ == (RunModel {
                tags: tags_but(old(self)@.tags, key@, old(self)@.tags.len()),
                ..old(self)@
            }),
            r == old(self)@.tags.len() - tags_but(
                old(self)@.tags,
                key@,
                old(self)@.tags.len(),
            ).len(),
    {
        let mut kept: Vec<RunTag> = Vec::new();
        let mut i: usize = 0;
        while i < self.tags.len()
            invariant
                i <= self.tags.len(),
                kept@ == tags_but(self.tags@, key@, i as nat),
                kept.len() <= i,
            decreases self.tags.len() - i,
        {
            let tag = self.tags[i];
            if !same_text(tag.key, key) {
                kept.push(tag);
            }
            i = i + 1;
        }
        let gone: usize = self.tags.len() - kept.len();
        self.tags = kept;
        gone
    }

    fn apply_eval_tags(&mut self) -> (r: i64)
        ensures
            r == old(self)@.tag_payout(),
            final(self)@ == old(self)@.tags_cashed(),
    {
        proof {
            reveal(RunModel::tag_payout);
        }
        if self.track.last_blind_boss {
            let n: usize = self.remove_tags("tag_investment");
            25i64.wrapping_mul(n as i64)
        } else {
            0
        }
    }

    fn count_out(&mut self, may_end: bool)
        ensures
            final(self)@ == old(self)@.counted_out(disabling(may_end)),
        decreases depth(may_end), 7int, 1int,
    {
        proof {
            reveal(RunModel::counted_out);
            reveal(RunModel::held_done);
            reveal(RunModel::payout);
        }
        let room: usize = self.consumable_room();
        let none: Vec<Card> = Vec::new();
        assert(none@ =~= seq![]);
        let mut hooks = self.open_window(&none);
        let planets: usize = scoring::evaluate_held_at_round_end(
            &self.hand,
            room,
            &mut self.purse.dollars,
            &mut self.rng,
            &mut hooks,
        );
        let joker_dollars: i64 = hooks.dollar_bonus();
        self.rejoin(hooks, may_end);
        self.add_planets(planets);
        let mut dollars: i64 = 0;
        if self.blind_met() {
            dollars = self.foe().dollars;
        }
        if self.round.hands_left > 0 {
            dollars = dollars.wrapping_add(self.round.hands_left);
        }
        dollars = dollars.wrapping_add(joker_dollars);
        let interest: i64 = self.interest();
        let tags: i64 = self.apply_eval_tags();
        self.purse.pending_cashout = dollars.wrapping_add(tags).wrapping_add(interest);
    }

    fn gather(&mut self)
        ensures
            final(self)@ == old(self)@.gathered(),
    {
        proof {
            reveal(RunModel::gathered);
        }
        let boss = self.foe().is_boss;
        clear_debuffs(&mut self.deck);
        clear_debuffs(&mut self.hand);
        clear_debuffs(&mut self.discard_pile);
        face_up(&mut self.hand);
        self.discard_pile.append(&mut self.hand);
        assert(self.hand@ =~= seq![]);
        if boss {
            self.track.ante = self.track.ante.wrapping_add(1);
            let key = self.next_voucher_key(false);
            self.offers.current_voucher = Some(key);
            forget_played(&mut self.deck);
            forget_played(&mut self.discard_pile);
        }
        let mut returned: Vec<Card> = Vec::new();
        std::mem::swap(&mut returned, &mut self.discard_pile);
        returned.append(&mut self.deck);
        self.deck = returned;
        assert(self.discard_pile@ =~= seq![]);
    }

    fn expire(&mut self)
        ensures
            final(self)@ == old(self)@.expired(),
    {
        proof {
            reveal(RunModel::expired);
        }
        if let Some(t) = self.round.temp_handsize {
            self.round.hand_size = self.round.hand_size.wrapping_sub(t);
            self.round.temp_handsize = None;
        }
        if self.reroll.temp_cost.is_some() {
            self.reroll.temp_cost = None;
            self.calculate_reroll_cost(true);
        }
    }

    fn show_jokers(&mut self)
        ensures
            final(self)@ == old(self)@.jokers_shown(),
    {
        let ghost g = |j: OwnedJoker| OwnedJoker { flipped: false, ..j };
        let f = |j: OwnedJoker| -> (r: OwnedJoker)
            ensures
                r == (OwnedJoker { flipped: false, ..j }),
            { OwnedJoker { flipped: false, ..j } };
        alter(&mut self.jokers, f, Ghost(g));
    }

    fn win_round(&mut self, may_end: bool)
        ensures
            final(self)@ == old(self)@.won_round(disabling(may_end)),
        decreases depth(may_end), 8int, 0int,
    {
        proof {
            reveal(RunModel::won_round);
        }
        let manacle = match self.round.active_blind {
            Some(b) => b.is("The Manacle") && !b.disabled,
            None => false,
        };
        self.record_round();
        self.count_out(may_end);
        if manacle {
            self.resize(1);
        }
        self.gather();
        self.expire();
        self.reset_idol_card();
        self.reset_mail_rank();
        self.reset_ancient_card();
        self.reset_castle_card();
        self.show_jokers();
        self.clear_joker_debuffs(may_end);
        self.round.forced_card = None;
        self.state = State::RoundEval;
    }
}

// ---- drawing -------------------------------------------------------------

/// The numbers of the jokers among the first `n` that are not debuffed, or of
/// all.
pub open spec fn clear_ids(jokers: Seq<OwnedJoker>, all: bool, n: nat) -> Seq<u32>
    decreases n,
{
    if n == 0 {
        seq![]
    } else {
        let rest = clear_ids(jokers, all, (n - 1) as nat);
        if !jokers[n - 1].debuffed || all {
            rest.push(jokers[n - 1].sort_id)
        } else {
            rest
        }
    }
}

fn numbers_of_clear(jokers: &Vec<OwnedJoker>, all: bool) -> (r: Vec<u32>)
    ensures
        r@ == clear_ids(jokers@, all, jokers@.len()),
{
    let mut ids: Vec<u32> = Vec::new();
    let mut i: usize = 0;
    while i < jokers.len()
        invariant
            i <= jokers.len(),
            ids@ == clear_ids(jokers@, all, i as nat),
        decreases jokers.len() - i,
    {
        if !jokers[i].debuffed || all {
            ids.push(jokers[i].sort_id);
        }
        i = i + 1;
    }
    ids
}

impl RunModel {
    /// Whether a blind of some name is on and not disabled.
    pub open spec fn faces(self, name: Seq<char>) -> bool {
        self.round.active_blind matches Some(b) && b.named(name) && !b.disabled
    }

    /// How many cards there is room for in hand.
    pub open spec fn hand_room(self) -> nat {
        let room = self.round.hand_size.wrapping_sub(self.hand.len() as i64);
        if room < 0 {
            0
        } else {
            (room as usize) as nat
        }
    }

    /// How many cards are drawn: up to the hand size, or three against the
    /// Serpent once the round has begun.
    pub open spec fn draw_count(self) -> nat {
        let wanted = if self.faces("The Serpent"@) && (self.round.hands_played > 0
            || self.round.discards_used > 0) {
            3
        } else {
            self.hand_room()
        };
        if self.deck.len() < wanted {
            self.deck.len()
        } else {
            wanted
        }
    }

    /// One card is drawn; the blind may keep it face down.
    pub open spec fn one_drawn(self) -> RunModel {
        let card = self.deck.last();
        let m = RunModel { deck: self.deck.drop_last(), ..self };
        match self.round.active_blind {
            Some(b) => {
                let face_down = b.flips(
                    self.s,
                    card,
                    self.round.hands_played,
                    self.round.discards_used,
                    self.rates.prob_normal,
                    self.owns(JokerId::Pareidolia),
                );
                RunModel {
                    hand: self.hand.push(Card { face_down, ..card }),
                    s: if b.rolls_wheel() {
                        self.s.after("wheel"@)
                    } else {
                        self.s
                    },
                    ..m
                }
            },
            None => RunModel { hand: self.hand.push(Card { face_down: false, ..card }), ..m },
        }
    }

    /// Cards are drawn one by one.
    pub open spec fn drawn(self, n: nat) -> RunModel
        decreases n,
    {
        if n == 0 {
            self
        } else {
            self.drawn((n - 1) as nat).one_drawn()
        }
    }

    /// The jokers see the first hand of a round.
    pub open spec fn first_hand_seen(self) -> RunModel {
        if self.round.hands_played == 0 && self.round.discards_used == 0 {
            self.rejoined(EngineHooks::at_first_hand(self.engine(seq![])), disabling(true))
        } else {
            self
        }
    }

    /// Whether the card that must be chosen is in hand.
    pub open spec fn has_forced_card(self) -> bool {
        self.round.forced_card matches Some(id) && making::found(
            making::card_ids(self.hand),
            id,
        ) is Some
    }

    /// The Cerulean Bell forces a card.
    pub open spec fn bell_rung(self) -> RunModel {
        if self.faces("Cerulean Bell"@) && !self.has_forced_card() && self.hand.len() > 0 {
            let id = making::picked(self.s, "cerulean_bell"@, making::card_ids(self.hand));
            RunModel {
                round: Round { forced_card: Some(id), ..self.round },
                ..self.after("cerulean_bell"@)
            }
        } else {
            self
        }
    }

    /// The Crimson Heart debuffs another joker.
    pub open spec fn heart_turned(self) -> RunModel {
        let n = self.jokers.len();
        let ids = clear_ids(self.jokers, n < 2, n);
        let m = self.jokers_cleared(0, n, disabling(true));
        if ids.len() == 0 {
            m
        } else {
            let id = making::picked(m.s, "crimson_heart"@, ids);
            let m1 = m.after("crimson_heart"@);
            match making::found(making::joker_ids(m1.jokers), id) {
                Some(i) => m1.joker_debuffed(i, true, disabling(true)),
                None => m1,
            }
        }
    }

    /// The blind no longer waits for a draw.
    pub open spec fn unprepped(self) -> RunModel {
        RunModel {
            round: Round {
                active_blind: match self.round.active_blind {
                    Some(b) => Some(ActiveBlind { prepped: false, ..b }),
                    None => None,
                },
                ..self.round
            },
            ..self
        }
    }

    /// The hand is filled up, and whatever waits for that happens.
    #[verifier::opaque]
    pub open spec fn hand_drawn(self) -> RunModel {
        let d = self.drawn(self.draw_count());
        let m = (RunModel { hand: making::in_order(d.hand), ..d }).first_hand_seen().bell_rung();
        let heart = m.faces("Crimson Heart"@) && m.round.active_blind.unwrap().prepped;
        if heart {
            m.unprepped().heart_turned()
        } else {
            m.unprepped()
        }
    }
}

impl Run {
    pub(crate) fn faces(&self, name: &str) -> (r: bool)
        ensures
            r == self@.faces(name@),
    {
        match self.round.active_blind {
            Some(b) => b.is(name) && !b.disabled,
            None => false,
        }
    }

    pub(crate) fn hand_room(&self) -> (r: usize)
        ensures
            r == self@.hand_room(),
    {
        let room: i64 = self.round.hand_size.wrapping_sub(self.hand.len() as i64);
        if room < 0 {
            0
        } else {
            room as usize
        }
    }

    fn draw_count(&self) -> (r: usize)
        ensures
            r == self@.draw_count(),
            r <= self.deck.len(),
    {
        let wanted: usize = if self.faces("The Serpent") && (self.round.hands_played > 0
            || self.round.discards_used > 0) {
            3
        } else {
            self.hand_room()
        };
        if self.deck.len() < wanted {
            self.deck.len()
        } else {
            wanted
        }
    }

    fn draw_one(&mut self)
        requires
            old(self).deck.len() > 0,
        ensures
            final(self)@ == old(self)@.one_drawn(),
            final(self).deck.len() == old(self).deck.len() - 1,
    {
        if let Some(c) = self.deck.pop() {
            let mut card = c;
            let pareidolia = self.joker_owned(JokerId::Pareidolia);
            card.face_down = match self.round.active_blind {
                Some(b) => b.stay_flipped(
                    &mut self.rng,
                    &card,
                    self.round.hands_played,
                    self.round.discards_used,
                    self.rates.prob_normal,
                    pareidolia,
                ),
                None => false,
            };
            self.hand.push(card);
        }
    }

    pub(crate) fn see_first_hand(&mut self)
        ensures
            final(self)@ == old(self)@.first_hand_seen(),
    {
        if self.round.hands_played == 0 && self.round.discards_used == 0 {
            let none: Vec<Card> = Vec::new();
            assert(none@ =~= seq![]);
            let mut hooks = self.open_window(&none);
            hooks.first_hand_drawn();
            self.rejoin(hooks, true);
        }
    }

    fn ring_bell(&mut self)
        ensures
            final(self)@ == old(self)@.bell_rung(),
    {
        if self.faces("Cerulean Bell") {
            let ids = numbers_of_cards(&self.hand);
            let has_forced = match self.round.forced_card {
                Some(id) => find_number(&ids, id).is_some(),
                None => false,
            };
            if !has_forced && self.hand.len() > 0 {
                let id: u32 = pick_number(&mut self.rng, "cerulean_bell", &ids);
                self.round.forced_card = Some(id);
            }
        }
    }

    fn turn_heart(&mut self)
        ensures
            final(self)@ == old(self)@.heart_turned(),
    {
        let n: usize = self.jokers.len();
        let ids = numbers_of_clear(&self.jokers, n < 2);
        self.clear_joker_debuffs(true);
        if ids.len() > 0 {
            let id: u32 = pick_number(&mut self.rng, "crimson_heart", &ids);
            let now = numbers_of_jokers(&self.jokers);
            if let Some(i) = find_number(&now, id) {
                self.set_joker_debuffed(i, true, true);
            }
        }
    }

    pub(crate) fn draw_to_hand(&mut self)
        ensures
            final(self)@ == old(self)@.hand_drawn(),
    {
        proof {
            reveal(RunModel::hand_drawn);
        }
        let n: usize = self.draw_count();
        let mut i: usize = 0;
        while i < n
            invariant
                i <= n,
                n - i <= self.deck.len(),
                self@ == old(self)@.drawn(i as nat),
            decreases n - i,
        {
            self.draw_one();
            i = i + 1;
        }
        making::sort_hand(&mut self.hand);
        self.see_first_hand();
        self.ring_bell();
        let heart = match self.round.active_blind {
            Some(b) => b.is("Crimson Heart") && !b.disabled && b.prepped,
            None => false,
        };
        if let Some(b) = self.round.active_blind {
            self.round.active_blind = Some(ActiveBlind { prepped: false, ..b });
        }
        if heart {
            self.turn_heart();
        }
    }
}

// ---- laws ----------------------------------------------------------------

/// Losing a joker undoes gaining it, but for its being about. A Chicot that
/// disables a boss is left out; for Chaos the Clown the price of a reroll must
/// be up to date, for Oops! All 6s the chances must be normal numbers that can
/// be doubled.
pub proof fn law_losing_a_joker_undoes_gaining_it(m: RunModel, j: OwnedJoker)
    requires
        !j.debuffed,
        j.id == JokerId::Chicot ==> !m.faces_live_boss(),
        j.id == JokerId::Chaos ==> m.reroll_priced(true) == m && m.reroll.free < i64::MAX,
        j.id == JokerId::Oops ==> double::is_finite(m.rates.prob_normal) && double::significand(
            m.rates.prob_normal,
        ) >= 0x10_0000_0000_0000 && double::exponent(m.rates.prob_normal) < 969,
    ensures
        m.with_joker(j, disabling(true)).without_joker(m.jokers.len()) == m.released(
            j.id.row().key@,
        ),
{
    reveal(RunModel::with_joker);
    reveal(RunModel::without_joker);
    let x = if j.edition == Edition::Negative {
        m.with_joker_slots(m.limits.joker_slots.wrapping_add(1))
    } else {
        m
    };
    if j.id == JokerId::Chaos {
        reveal(RunModel::reroll_priced);
    }
    lemma_passives_undone(x, j);
    let a = x.passives_on(j, disabling(true));
    let g = m.with_joker(j, disabling(true));
    assert(g == RunModel { jokers: a.jokers.push(j), ..a });
    assert(a.jokers.push(j).remove(a.jokers.len() as int) =~= a.jokers);
    assert(RunModel { jokers: g.jokers.remove(m.jokers.len() as int), ..g } == a);
    assert(g.jokers[m.jokers.len() as int] == j);
}

/// What a joker does by being there ends with it.
#[verifier::spinoff_prover]
#[verifier::rlimit(80)]
proof fn lemma_passives_undone(m: RunModel, j: OwnedJoker)
    requires
        j.id == JokerId::Chicot ==> !m.faces_live_boss(),
        j.id == JokerId::Chaos ==> m.reroll_priced(true) == m && m.reroll.free < i64::MAX,
        j.id == JokerId::Oops ==> double::is_finite(m.rates.prob_normal) && double::significand(
            m.rates.prob_normal,
        ) >= 0x10_0000_0000_0000 && double::exponent(m.rates.prob_normal) < 969,
    ensures
        m.passives_on(j, disabling(true)).jokers == m.jokers,
        m.passives_on(j, disabling(true)).limits.joker_slots == m.limits.joker_slots,
        m.passives_on(j, disabling(true)).passives_off(j) == m,
{
    let on = m.passives_on(j, disabling(true));
    assert(on == match j.id {
        JokerId::Juggler => m.resized(1),
        JokerId::Drunkard => m.with_discards(1),
        JokerId::MerryAndy => m.resized(-1).with_discards(3),
        JokerId::CreditCard => m.with_floor(-20),
        JokerId::Chaos => m.with_free_rerolls(1),
        JokerId::TurtleBean => m.resized(j.state.extra.truncated() as int),
        JokerId::Oops => m.with_chances(m.rates.prob_normal.times(Double::of(2))),
        JokerId::ToTheMoon => m.with_interest(1),
        JokerId::Troubadour => m.resized(2).with_round_hands(-1),
        JokerId::Stuntman => m.resized(-2),
        _ => m,
    }) by {
        reveal(RunModel::passives_on);
    }
    assert(on.passives_off(j) == match j.id {
        JokerId::Juggler => on.resized(-1),
        JokerId::Drunkard => on.with_discards(-1),
        JokerId::MerryAndy => on.resized(1).with_discards(-3),
        JokerId::CreditCard => on.with_floor(20),
        JokerId::Chaos => on.with_free_rerolls(-1),
        JokerId::TurtleBean => RunModel {
            round: Round {
                hand_size: on.round.hand_size.wrapping_sub(j.state.extra.truncated()),
                ..on.round
            },
            ..on
        },
        JokerId::Oops => on.with_chances(on.rates.prob_normal.over(Double::of(2))),
        JokerId::ToTheMoon => on.with_interest(-1),
        JokerId::Troubadour => on.resized(-2).with_round_hands(1),
        JokerId::Stuntman => on.resized(2),
        _ => on,
    }) by {
        reveal(RunModel::passives_off);
    }
    if j.id == JokerId::Chaos {
        reveal(RunModel::with_free_rerolls);
        reveal(RunModel::reroll_priced);
    } else if j.id == JokerId::Oops {
        double::lemma_encode_parts(m.rates.prob_normal);
        double::lemma_double_and_halve(m.rates.prob_normal);
    }
}

impl RunModel {
    spec fn with_floor(self, n: int) -> RunModel {
        RunModel {
            purse: Purse {
                bankrupt_at: self.purse.bankrupt_at.wrapping_add(n as i64),
                ..self.purse
            },
            ..self
        }
    }

    spec fn with_interest(self, n: int) -> RunModel {
        RunModel {
            purse: Purse {
                interest_amount: self.purse.interest_amount.wrapping_add(n as i64),
                ..self.purse
            },
            ..self
        }
    }

    spec fn with_chances(self, prob_normal: Double) -> RunModel {
        RunModel { rates: Rates { prob_normal, ..self.rates }, ..self }
    }
}

/// A blind that was disabled stays as it is when it is disabled once more.
pub proof fn law_disabling_twice_is_disabling_once(m: RunModel)
    ensures
        m.hushed().hushed() == m.hushed(),
        m.hushed().disabled() == m.hushed(),
{
    reveal(RunModel::quieted);
    reveal(RunModel::disabled);
}

/// Cards are drawn from the end of the deck, one by one, as they are but for the
/// side that shows.
pub proof fn law_cards_are_drawn_from_the_end(m: RunModel, n: nat, i: int)
    requires
        n <= m.deck.len(),
    ensures
        m.drawn(n).deck == m.deck.take(m.deck.len() - n),
        m.drawn(n).hand.len() == m.hand.len() + n,
        0 <= i < m.hand.len() ==> m.drawn(n).hand[i] == m.hand[i],
        0 <= i < n ==> m.drawn(n).hand[m.hand.len() + i] == (Card {
            face_down: m.drawn(n).hand[m.hand.len() + i].face_down,
            ..m.deck[m.deck.len() - 1 - i]
        }),
    decreases n,
{
    if n == 0 {
        assert(m.deck.take(m.deck.len() as int) =~= m.deck);
    } else {
        law_cards_are_drawn_from_the_end(m, (n - 1) as nat, i);
        let d = m.drawn((n - 1) as nat);
        assert(d.deck.drop_last() =~= m.deck.take(m.deck.len() - n));
        assert(d.deck.last() == m.deck[m.deck.len() - n]);
        assert(d.one_drawn().deck == d.deck.drop_last());
    }
}

/// At the end of a round every card goes back into the deck: the discarded ones
/// below those of the hand, and both below those that were not drawn.
pub proof fn law_round_end_gathers_every_card(m: RunModel)
    ensures
        m.gathered().hand.len() == 0,
        m.gathered().discard_pile.len() == 0,
        making::card_ids(m.gathered().deck) == making::card_ids(
            m.discard_pile,
        ) + making::card_ids(m.hand) + making::card_ids(m.deck),
{
    reveal(RunModel::gathered);
    reveal(RunModel::voucher_drawn);
    let ids = making::card_ids(m.discard_pile) + making::card_ids(m.hand) + making::card_ids(
        m.deck,
    );
    assert(making::card_ids(m.gathered().deck) =~= ids);
}

/// No hand was played more often than the most played hand.
pub proof fn law_no_hand_was_played_more(hands: scoring::HandsTable, i: int, n: nat)
    requires
        0 <= i < n <= 12,
    ensures
        hands.row(MOST_PLAYED_SCAN[i]).played <= hands.row(most_played(hands, n)).played,
    decreases n,
{
    if i < n - 1 {
        law_no_hand_was_played_more(hands, i, (n - 1) as nat);
    }
}

} // verus!
