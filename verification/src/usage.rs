//! What consumables do to money, jokers and hand levels, and using one.
use crate::cards::{Card, Edition, Enhancement, HandType};
use crate::double::Double;
use crate::items;
use crate::items::{ConsumableSet, JokerId};
use crate::jokers::effects;
use crate::making;
use crate::making::{alter, find_number, numbers_of_jokers, pick_number};
use crate::market;
use crate::play::list_of;
use crate::registry;
use crate::round;
use crate::run::{Limits, Purse, Record, Refusal, Round, Run, RunError, RunModel, Turn};
use crate::scoring::HandsTable;
use crate::shop::{JokerArea, OwnedJoker};
use crate::tarots;
use crate::text;
use crate::text::{join2, same_text, with_count};
use vstd::prelude::*;

verus! {

// ---- money and consumables -----------------------------------------------

impl RunModel {
    /// What the first `n` jokers sell for together.
    pub open spec fn jokers_worth(self, n: nat) -> i64
        decreases n,
    {
        if n == 0 {
            0
        } else {
            self.jokers_worth((n - 1) as nat).wrapping_add(self.joker_worth(self.jokers[n - 1]))
        }
    }

    /// A new consumable of a set, if there is room.
    pub open spec fn supplied(self, set: ConsumableSet, append: &'static str) -> RunModel {
        if self.consumables.len() < self.limits.consumable_slots {
            let (key, m) = self.consumable_drawn(set, append, false);
            m.with_consumable(key)
        } else {
            self
        }
    }

    /// The cards that bring money or consumables.
    #[verifier::opaque]
    pub open spec fn wealth_effect(self, key: Seq<char>) -> Option<RunModel> {
        if key == "c_hermit"@ {
            Some(self.paid(self.dollars_within(20)))
        } else if key == "c_temperance"@ {
            let total = self.jokers_worth(self.jokers.len());
            Some(
                self.paid(
                    if total < 50 {
                        total
                    } else {
                        50
                    },
                ),
            )
        } else if key == "c_fool"@ {
            Some(
                match self.record.last_tarot_planet {
                    Some(k) => if self.consumables.len() < self.limits.consumable_slots {
                        self.with_consumable(k)
                    } else {
                        self
                    },
                    None => self,
                },
            )
        } else if key == "c_emperor"@ {
            Some(self.supplied(ConsumableSet::Tarot, "emp").supplied(ConsumableSet::Tarot, "emp"))
        } else if key == "c_high_priestess"@ {
            Some(
                self.supplied(ConsumableSet::Planet, "pri").supplied(
                    ConsumableSet::Planet,
                    "pri",
                ),
            )
        } else {
            None
        }
    }
}

impl Run {
    fn jokers_worth(&self) -> (r: i64)
        ensures
            r == self@.jokers_worth(self@.jokers.len()),
    {
        let mut total: i64 = 0;
        let mut i: usize = 0;
        while i < self.jokers.len()
            invariant
                i <= self.jokers.len(),
                total == self@.jokers_worth(i as nat),
            decreases self.jokers.len() - i,
        {
            total = total.wrapping_add(self.joker_sell_value(&self.jokers[i]));
            i = i + 1;
        }
        total
    }

    fn supply_one(&mut self, set: ConsumableSet, append: &'static str)
        ensures
            final(self)@ == old(self)@.supplied(set, append),
    {
        if self.consumables.len() < self.limits.consumable_slots {
            let key = self.create_consumable_key(set, append, false);
            self.add_consumable(key);
        }
    }

    fn use_for_wealth(&mut self, key: &str) -> (r: bool)
        ensures
            match old(self)@.wealth_effect(key@) {
                Some(m) => r && final(self)@ == m,
                None => !r && final(self)@ == old(self)@,
            },
    {
        proof {
            reveal(RunModel::wealth_effect);
        }
        if same_text(key, "c_hermit") {
            let n: i64 = self.dollars_within(20);
            self.purse.dollars = self.purse.dollars.wrapping_add(n);
        } else if same_text(key, "c_temperance") {
            let total: i64 = self.jokers_worth();
            let n: i64 = if total < 50 {
                total
            } else {
                50
            };
            self.purse.dollars = self.purse.dollars.wrapping_add(n);
        } else if same_text(key, "c_fool") {
            if let Some(k) = self.record.last_tarot_planet {
                if self.consumables.len() < self.limits.consumable_slots {
                    self.add_consumable(k);
                }
            }
        } else if same_text(key, "c_emperor") {
            self.supply_one(ConsumableSet::Tarot, "emp");
            self.supply_one(ConsumableSet::Tarot, "emp");
        } else if same_text(key, "c_high_priestess") {
            self.supply_one(ConsumableSet::Planet, "pri");
            self.supply_one(ConsumableSet::Planet, "pri");
        } else {
            return false;
        }
        true
    }
}

// ---- jokers --------------------------------------------------------------

/// The first place from `from` on with a joker of another number.
pub open spec fn other_from(jokers: Seq<OwnedJoker>, id: u32, from: nat) -> Option<nat>
    decreases jokers.len() - from,
{
    if from >= jokers.len() {
        None
    } else if jokers[from as int].sort_id != id {
        Some(from)
    } else {
        other_from(jokers, id, from + 1)
    }
}

fn find_other(jokers: &Vec<OwnedJoker>, id: u32) -> (r: Option<usize>)
    ensures
        match r {
            Some(i) => other_from(jokers@, id, 0) == Some(i as nat) && i < jokers.len(),
            None => other_from(jokers@, id, 0) is None,
        },
{
    let mut i: usize = 0;
    while i < jokers.len()
        invariant
            i <= jokers.len(),
            other_from(jokers@, id, 0) == other_from(jokers@, id, i as nat),
        decreases jokers.len() - i,
    {
        if jokers[i].sort_id != id {
            return Some(i);
        }
        i = i + 1;
    }
    None
}

/// Jokers with the edition of the first of a number changed.
pub open spec fn refinished(jokers: Seq<OwnedJoker>, id: u32, edition: Edition) -> Seq<OwnedJoker> {
    match making::found(making::joker_ids(jokers), id) {
        Some(i) => jokers.update(i as int, OwnedJoker { edition, ..jokers[i as int] }),
        None => jokers,
    }
}

fn refinish(jokers: &mut Vec<OwnedJoker>, id: u32, edition: Edition)
    ensures
        final(jokers)@ == refinished(old(jokers)@, id, edition),
{
    let ids = numbers_of_jokers(jokers);
    if let Some(i) = find_number(&ids, id) {
        let mut j = jokers[i];
        j.edition = edition;
        jokers.set(i, j);
    }
}

/// The jokers of a number among the first `n`, or those of other numbers.
pub open spec fn numbered(jokers: Seq<OwnedJoker>, id: u32, same: bool, n: nat) -> Seq<OwnedJoker>
    decreases n,
{
    if n == 0 {
        seq![]
    } else {
        let rest = numbered(jokers, id, same, (n - 1) as nat);
        if (jokers[n - 1].sort_id == id) == same {
            rest.push(jokers[n - 1])
        } else {
            rest
        }
    }
}

/// A copy of a joker under another number; the Negative edition is lost.
pub open spec fn copied(j: OwnedJoker, sort_id: u32) -> OwnedJoker {
    OwnedJoker {
        sort_id,
        edition: if j.edition == Edition::Negative {
            Edition::Plain
        } else {
            j.edition
        },
        ..j
    }
}

pub(crate) fn copy_of(j: &OwnedJoker, sort_id: u32) -> (r: OwnedJoker)
    ensures
        r == copied(*j, sort_id),
{
    let mut k = *j;
    k.sort_id = sort_id;
    if k.edition == Edition::Negative {
        k.edition = Edition::Plain;
    }
    k
}

impl RunModel {
    /// A new joker joins.
    pub open spec fn joker_joined(self, rarity: Option<Double>, legendary: bool, append: &'static str) -> RunModel {
        let (j, m) = self.joker_made(rarity, legendary, append, JokerArea::Direct);
        m.with_joker(j, round::disabling(true))
    }

    /// The jokers of other numbers are removed one by one, `n` at most.
    pub open spec fn others_removed(self, id: u32, n: nat) -> RunModel
        decreases n,
    {
        if n == 0 {
            self
        } else {
            match other_from(self.jokers, id, 0) {
                Some(i) => self.without_joker(i).others_removed(id, (n - 1) as nat),
                None => self,
            }
        }
    }

    /// The draw that the copy of a To Do List makes, which decides nothing.
    pub open spec fn copy_drawn(self, j: OwnedJoker) -> RunModel {
        if j.id == JokerId::TodoList {
            self.after("to_do"@)
        } else {
            self
        }
    }

    /// One drawn joker and its copy are all that stays.
    #[verifier::opaque]
    pub open spec fn ankh_made(self) -> RunModel {
        let ids = making::joker_ids(self.jokers);
        let id = making::picked(self.s, "ankh_choice"@, ids);
        match making::found(ids, id) {
            Some(i) => {
                let j = self.jokers[i as int];
                let m = self.after("ankh_choice"@).others_removed(id, self.jokers.len()).copy_drawn(
                    j,
                );
                let copy = OwnedJoker {
                    debuffed: false,
                    flipped: false,
                    ..copied(j, m.next_id())
                };
                m.numbered().using(j.id.row().key@).with_joker(copy, round::disabling(true))
            },
            None => self.after("ankh_choice"@),
        }
    }

    /// A drawn joker without an edition, by its number.
    pub open spec fn plain_picked(self, key: Seq<char>) -> u32 {
        making::picked(self.s, key, tarots::plain_ids(self.jokers, self.jokers.len()))
    }

    pub open spec fn with_edition(self, id: u32, edition: Edition) -> RunModel {
        RunModel { jokers: refinished(self.jokers, id, edition), ..self }
    }

    /// One time in four a drawn joker gets an edition.
    #[verifier::opaque]
    pub open spec fn wheel_spun(self) -> RunModel {
        let key = "wheel_of_fortune"@;
        let m = self.after(key);
        if effects::chance(self.s, key, self.rates.prob_normal, 4) {
            let m1 = m.after(key);
            let edition = items::polled_edition(
                m1.s.unit(key),
                Double::of(1),
                true,
                true,
                self.rates.edition,
            );
            m1.after(key).with_edition(m.plain_picked(key), edition)
        } else {
            m
        }
    }

    /// A drawn joker turns Negative, for some hand size.
    #[verifier::opaque]
    pub open spec fn ectoplasm_used(self) -> RunModel {
        let m = self.after("ectoplasm"@).with_edition(
            self.plain_picked("ectoplasm"@),
            Edition::Negative,
        );
        RunModel {
            limits: Limits { joker_slots: m.limits.joker_slots.wrapping_add(1), ..m.limits },
            round: Round {
                hand_size: m.round.hand_size.wrapping_sub(m.record.ecto_minus),
                ..m.round
            },
            record: Record { ecto_minus: m.record.ecto_minus.wrapping_add(1), ..m.record },
            ..m
        }
    }

    /// What the first `n` jokers that are gone leave behind.
    pub open spec fn forgotten(self, gone: Seq<OwnedJoker>, n: nat) -> RunModel
        decreases n,
    {
        if n == 0 {
            self
        } else {
            let m = self.forgotten(gone, (n - 1) as nat);
            let j = gone[n - 1];
            let m1 = if j.edition == Edition::Negative {
                m.with_joker_slots(m.limits.joker_slots.wrapping_sub(1))
            } else {
                m
            };
            m1.released(j.id.row().key@)
        }
    }

    /// A drawn joker turns Polychrome and is all that stays.
    #[verifier::opaque]
    pub open spec fn hexed(self) -> RunModel {
        let id = self.plain_picked("hex"@);
        let m = self.after("hex"@).with_edition(id, Edition::Polychrome);
        let n = m.jokers.len();
        let gone = numbered(m.jokers, id, false, n);
        (RunModel { jokers: numbered(m.jokers, id, true, n), ..m }).forgotten(gone, gone.len())
    }

    /// The cards that make or change jokers. Those that need a joker do nothing
    /// without one.
    #[verifier::opaque]
    pub open spec fn joker_effect(self, key: Seq<char>) -> Option<RunModel> {
        let none_plain = tarots::plain_ids(self.jokers, self.jokers.len()).len() == 0;
        if key == "c_judgement"@ {
            Some(self.joker_joined(None, false, "jud"))
        } else if key == "c_soul"@ {
            Some(self.joker_joined(None, true, "sou"))
        } else if key == "c_wraith"@ {
            let m = self.joker_joined(Some(Double::frac(99, 100)), false, "wra");
            Some(RunModel { purse: Purse { dollars: 0, ..m.purse }, ..m })
        } else if key == "c_ankh"@ {
            Some(
                if self.jokers.len() == 0 {
                    self
                } else {
                    self.ankh_made()
                },
            )
        } else if key == "c_wheel_of_fortune"@ {
            Some(
                if none_plain {
                    self
                } else {
                    self.wheel_spun()
                },
            )
        } else if key == "c_ectoplasm"@ {
            Some(
                if none_plain {
                    self
                } else {
                    self.ectoplasm_used()
                },
            )
        } else if key == "c_hex"@ {
            Some(
                if none_plain {
                    self
                } else {
                    self.hexed()
                },
            )
        } else {
            None
        }
    }
}

impl Run {
    fn join_joker(&mut self, rarity: Option<Double>, legendary: bool, append: &'static str)
        ensures
            final(self)@ == old(self)@.joker_joined(rarity, legendary, append),
    {
        let j = self.create_joker(rarity, legendary, append, JokerArea::Direct);
        self.add_joker(j);
    }

    fn remove_others(&mut self, id: u32)
        ensures
            final(self)@ == old(self)@.others_removed(id, old(self)@.jokers.len()),
    {
        let n: usize = self.jokers.len();
        let ghost m = self@;
        let mut k: usize = n;
        while k > 0
            invariant
                k <= n,
                m.others_removed(id, n as nat) == self@.others_removed(id, k as nat),
            ensures
                m.others_removed(id, n as nat) == self@,
            decreases k,
        {
            match find_other(&self.jokers, id) {
                Some(i) => {
                    self.remove_joker_at(i);
                },
                None => {
                    break;
                },
            }
            k = k - 1;
        }
    }

    pub(crate) fn draw_for_copy(&mut self, j: &OwnedJoker)
        ensures
            final(self)@ == old(self)@.copy_drawn(*j),
    {
        if j.id == JokerId::TodoList {
            let _hand = effects::roll_to_do_hand(&mut self.rng, &self.record.hands);
        }
    }

    fn make_ankh(&mut self)
        requires
            old(self)@.jokers.len() > 0,
        ensures
            final(self)@ == old(self)@.ankh_made(),
    {
        proof {
            reveal(RunModel::ankh_made);
        }
        let ids = numbers_of_jokers(&self.jokers);
        let id: u32 = pick_number(&mut self.rng, "ankh_choice", &ids);
        if let Some(i) = find_number(&ids, id) {
            let j = self.jokers[i];
            self.remove_others(id);
            self.draw_for_copy(&j);
            let sort_id: u32 = self.next_sort_id();
            let mut copy = copy_of(&j, sort_id);
            copy.debuffed = false;
            copy.flipped = false;
            self.add_used(j.id.key());
            self.add_joker(copy);
        }
    }

    fn pick_plain(&mut self, key: &str) -> (r: u32)
        requires
            tarots::plain_ids(old(self)@.jokers, old(self)@.jokers.len()).len() > 0,
        ensures
            r == old(self)@.plain_picked(key@),
            final(self)@ == old(self)@.after(key@),
    {
        let ids = tarots::numbers_of_plain(&self.jokers);
        pick_number(&mut self.rng, key, &ids)
    }

    fn spin_wheel(&mut self)
        requires
            tarots::plain_ids(old(self)@.jokers, old(self)@.jokers.len()).len() > 0,
        ensures
            final(self)@ == old(self)@.wheel_spun(),
    {
        proof {
            reveal(RunModel::wheel_spun);
        }
        let bar = self.rates.prob_normal.div(Double::from_i64(4));
        if self.rng.random("wheel_of_fortune").lt(bar) {
            let id: u32 = self.pick_plain("wheel_of_fortune");
            let edition = items::poll_edition(
                &mut self.rng,
                "wheel_of_fortune",
                Double::from_i64(1),
                true,
                true,
                self.rates.edition,
            );
            refinish(&mut self.jokers, id, edition);
        }
    }

    fn use_ectoplasm(&mut self)
        requires
            tarots::plain_ids(old(self)@.jokers, old(self)@.jokers.len()).len() > 0,
        ensures
            final(self)@ == old(self)@.ectoplasm_used(),
    {
        proof {
            reveal(RunModel::ectoplasm_used);
        }
        let id: u32 = self.pick_plain("ectoplasm");
        refinish(&mut self.jokers, id, Edition::Negative);
        self.limits.joker_slots = self.limits.joker_slots.wrapping_add(1);
        self.round.hand_size = self.round.hand_size.wrapping_sub(self.record.ecto_minus);
        self.record.ecto_minus = self.record.ecto_minus.wrapping_add(1);
    }

    fn use_hex(&mut self)
        requires
            tarots::plain_ids(old(self)@.jokers, old(self)@.jokers.len()).len() > 0,
        ensures
            final(self)@ == old(self)@.hexed(),
    {
        proof {
            reveal(RunModel::hexed);
        }
        let id: u32 = self.pick_plain("hex");
        refinish(&mut self.jokers, id, Edition::Polychrome);
        let mut stays: Vec<OwnedJoker> = Vec::new();
        let mut gone: Vec<OwnedJoker> = Vec::new();
        let mut i: usize = 0;
        assert(stays@ =~= seq![]);
        assert(gone@ =~= seq![]);
        while i < self.jokers.len()
            invariant
                i <= self.jokers.len(),
                stays@ == numbered(self.jokers@, id, true, i as nat),
                gone@ == numbered(self.jokers@, id, false, i as nat),
            decreases self.jokers.len() - i,
        {
            if self.jokers[i].sort_id == id {
                stays.push(self.jokers[i]);
            } else {
                gone.push(self.jokers[i]);
            }
            i = i + 1;
        }
        self.jokers = stays;
        let ghost m = self@;
        let mut k: usize = 0;
        while k < gone.len()
            invariant
                k <= gone.len(),
                self@ == m.forgotten(gone@, k as nat),
            decreases gone.len() - k,
        {
            let j = gone[k];
            if j.edition == Edition::Negative {
                self.limits.joker_slots = self.limits.joker_slots.wrapping_sub(1);
            }
            self.remove_used(j.id.key());
            k = k + 1;
        }
    }

    fn use_for_jokers(&mut self, key: &str) -> (r: bool)
        ensures
            match old(self)@.joker_effect(key@) {
                Some(m) => r && final(self)@ == m,
                None => !r && final(self)@ == old(self)@,
            },
    {
        proof {
            reveal(RunModel::joker_effect);
        }
        if same_text(key, "c_judgement") {
            self.join_joker(None, false, "jud");
        } else if same_text(key, "c_soul") {
            self.join_joker(None, true, "sou");
        } else if same_text(key, "c_wraith") {
            self.join_joker(Some(Double::lit(99, 100)), false, "wra");
            self.purse.dollars = 0;
        } else if same_text(key, "c_ankh") {
            if self.jokers.len() > 0 {
                self.make_ankh();
            }
        } else if same_text(key, "c_wheel_of_fortune") {
            if tarots::numbers_of_plain(&self.jokers).len() > 0 {
                self.spin_wheel();
            }
        } else if same_text(key, "c_ectoplasm") {
            if tarots::numbers_of_plain(&self.jokers).len() > 0 {
                self.use_ectoplasm();
            }
        } else if same_text(key, "c_hex") {
            if tarots::numbers_of_plain(&self.jokers).len() > 0 {
                self.use_hex();
            }
        } else {
            return false;
        }
        true
    }
}

// ---- levels, and using a consumable --------------------------------------

/// The first `n` hands go up by a level.
pub open spec fn all_raised(hands: HandsTable, n: nat) -> HandsTable
    decreases n,
{
    if n == 0 {
        hands
    } else {
        all_raised(hands, (n - 1) as nat).leveled_up(HandType::ALL[n - 1], 1)
    }
}

/// How many of the first `n` targets are Glass cards.
pub open spec fn glass_among(hand: Seq<Card>, targets: Seq<usize>, n: nat) -> nat
    decreases n,
{
    if n == 0 {
        0
    } else {
        glass_among(hand, targets, (n - 1) as nat) + (if hand[targets[n - 1] as int].enhancement
            == Enhancement::Glass {
            1nat
        } else {
            0
        })
    }
}

/// Constellations grow by a planet, Glass Jokers by Glass cards destroyed.
pub open spec fn grown_by_use(planet: bool, glass: nat) -> spec_fn(OwnedJoker) -> OwnedJoker {
    |j: OwnedJoker|
        if j.id == JokerId::Constellation && !j.debuffed && planet {
            j.gain_x(Double::frac(1, 10))
        } else if j.id == JokerId::Glass && !j.debuffed && glass > 0 {
            j.gain_x(Double::frac(75, 100).times(Double::of(glass as int)))
        } else {
            j
        }
}

impl RunModel {
    pub open spec fn with_hands(self, hands: HandsTable) -> RunModel {
        RunModel { record: Record { hands, ..self.record }, ..self }
    }

    /// The cards that raise hands.
    #[verifier::opaque]
    pub open spec fn level_effect(self, key: Seq<char>) -> Option<RunModel> {
        if key == "c_black_hole"@ {
            Some(self.with_hands(all_raised(self.record.hands, 12)))
        } else if tarots::set_of(key) == ConsumableSet::Planet {
            match items::planet_hand(key) {
                Some(ht) => Some(self.with_hands(self.record.hands.leveled_up(ht, 1))),
                None => None,
            }
        } else {
            None
        }
    }

    /// What a consumable does, if it does anything.
    pub open spec fn effect(self, key: Seq<char>, targets: Seq<usize>) -> Option<RunModel> {
        if self.target_effect(key, targets) is Some {
            self.target_effect(key, targets)
        } else if self.hand_effect(key, targets) is Some {
            self.hand_effect(key, targets)
        } else if self.wealth_effect(key) is Some {
            self.wealth_effect(key)
        } else if self.joker_effect(key) is Some {
            self.joker_effect(key)
        } else {
            self.level_effect(key)
        }
    }

    /// How often a consumable was used.
    pub open spec fn times_used(self, key: Seq<char>) -> u32 {
        if self.consumable_usage.dom().contains(key) {
            self.consumable_usage[key]
        } else {
            0
        }
    }

    /// The use of a consumable is counted.
    pub open spec fn use_counted(self, key: Seq<char>) -> RunModel {
        RunModel {
            consumable_usage: self.consumable_usage.insert(
                key,
                self.times_used(key).wrapping_add(1),
            ),
            record: Record {
                tarots_used: if tarots::set_of(key) == ConsumableSet::Tarot {
                    self.record.tarots_used.wrapping_add(1)
                } else {
                    self.record.tarots_used
                },
                ..self.record
            },
            ..self
        }
    }

    /// The last Tarot or Planet card used is remembered.
    pub open spec fn use_remembered(self, key: &'static str) -> RunModel {
        let set = tarots::set_of(key@);
        if set == ConsumableSet::Tarot || set == ConsumableSet::Planet {
            RunModel { record: Record { last_tarot_planet: Some(key), ..self.record }, ..self }
        } else {
            self
        }
    }

    /// The jokers see a consumable used.
    pub open spec fn use_seen(self, key: Seq<char>, glass: nat) -> RunModel {
        RunModel {
            jokers: self.jokers.map_values(grown_by_use(market::is_planet(key), glass)),
            ..self
        }
    }

    /// Glass cards that the Hanged Man destroys.
    pub open spec fn glass_hanged(self, key: Seq<char>, targets: Seq<usize>) -> nat {
        if key == "c_hanged_man"@ {
            glass_among(self.hand, targets, targets.len())
        } else {
            0
        }
    }

    /// A consumable is used on some targets.
    #[verifier::opaque]
    pub open spec fn used(self, key: &'static str, targets: Seq<usize>) -> Turn {
        let counted = self.use_counted(key@);
        match counted.effect(key@, targets) {
            Some(m) => Turn::done(
                m.use_remembered(key).use_seen(key@, self.glass_hanged(key@, targets)),
            ),
            None => Turn::refused(counted, Refusal::CannotUse(key@ + " not implemented"@)),
        }
    }

    /// A consumable that left its place is used and is no longer about.
    pub open spec fn used_up(self, key: &'static str, targets: Seq<usize>) -> Turn {
        let t = self.used(key, targets);
        match t.refusal {
            Some(_) => t,
            None => Turn::done(t.run.released(key@)),
        }
    }

    /// The run without the consumable in a place.
    pub open spec fn without_consumable(self, i: nat) -> RunModel {
        let c = self.consumables[i as int];
        let m = RunModel { consumables: self.consumables.remove(i as int), ..self };
        if c.negative {
            RunModel {
                limits: Limits {
                    consumable_slots: m.limits.consumable_slots.wrapping_sub(1),
                    ..m.limits
                },
                ..m
            }
        } else {
            m
        }
    }

    /// A held consumable is used.
    #[verifier::opaque]
    pub open spec fn consumable_used(self, idx: usize, targets: Seq<usize>) -> Turn {
        if idx >= self.consumables.len() {
            Turn::refused(self, Refusal::BadSlot("consumable "@ + text::decimal(idx as int)))
        } else {
            let key = self.consumables[idx as int].key;
            match self.unusable(key@, targets) {
                Some(why) => Turn::refused(self, Refusal::CannotUse(why)),
                None => self.without_consumable(idx as nat).used_up(key, targets),
            }
        }
    }
}

impl Run {
    fn use_for_levels(&mut self, key: &str) -> (r: bool)
        ensures
            match old(self)@.level_effect(key@) {
                Some(m) => r && final(self)@ == m,
                None => !r && final(self)@ == old(self)@,
            },
    {
        proof {
            reveal(RunModel::level_effect);
        }
        if same_text(key, "c_black_hole") {
            let ghost hands = self.record.hands;
            let ghost m = self@;
            let mut i: usize = 0;
            while i < 12
                invariant
                    i <= 12,
                    self@ == m.with_hands(all_raised(hands, i as nat)),
                decreases 12 - i,
            {
                self.record.hands.level_up(HandType::ALL[i], 1);
                i = i + 1;
            }
            return true;
        }
        if market::planet_key(key) {
            if let Some(ht) = items::hand_for_planet(key) {
                self.record.hands.level_up(ht, 1);
                return true;
            }
        }
        false
    }

    fn take_effect(&mut self, key: &str, targets: &Vec<usize>) -> (r: bool)
        requires
            old(self)@.targets_in_hand(targets@),
        ensures
            match old(self)@.effect(key@, targets@) {
                Some(m) => r && final(self)@ == m,
                None => !r && final(self)@ == old(self)@,
            },
    {
        self.use_on_targets(key, targets) || self.use_on_hand(key, targets) || self.use_for_wealth(
            key,
        ) || self.use_for_jokers(key) || self.use_for_levels(key)
    }

    fn count_use(&mut self, key: &str)
        ensures
            final(self)@ == old(self)@.use_counted(key@),
    {
        let n: u32 = match self.consumable_usage.get(key) {
            Some(n) => n,
            None => 0,
        };
        self.consumable_usage.insert(key, n.wrapping_add(1));
        if is_of(key, ConsumableSet::Tarot) {
            self.record.tarots_used = self.record.tarots_used.wrapping_add(1);
        }
    }

    fn joker_consumable_used(&mut self, key: &str, glass: usize)
        ensures
            final(self)@ == old(self)@.use_seen(key@, glass as nat),
    {
        let planet = market::planet_key(key);
        let gain = Double::lit(75, 100).mul(Double::from_u64(glass as u64));
        let f = |j: OwnedJoker| -> (r: OwnedJoker)
            ensures
                r == grown_by_use(planet, glass as nat)(j),
            {
                let mut k = j;
                if !j.debuffed {
                    if j.id == JokerId::Constellation && planet {
                        k.state.x_mult = k.state.x_mult.add(Double::lit(1, 10));
                    }
                    if j.id == JokerId::Glass && glass > 0 {
                        k.state.x_mult = k.state.x_mult.add(gain);
                    }
                }
                k
            };
        alter(&mut self.jokers, f, Ghost(grown_by_use(planet, glass as nat)));
    }

    fn glass_hanged(&self, key: &str, targets: &Vec<usize>) -> (r: usize)
        requires
            self@.targets_in_hand(targets@),
        ensures
            r == self@.glass_hanged(key@, targets@),
    {
        if !same_text(key, "c_hanged_man") {
            return 0;
        }
        let mut n: usize = 0;
        let mut i: usize = 0;
        while i < targets.len()
            invariant
                i <= targets.len(),
                n <= i,
                self@.targets_in_hand(targets@),
                n == glass_among(self.hand@, targets@, i as nat),
            decreases targets.len() - i,
        {
            if self.hand[targets[i]].enhancement == Enhancement::Glass {
                n = n + 1;
            }
            i = i + 1;
        }
        n
    }

    pub(crate) fn use_consumable_key(&mut self, key: &'static str, targets: &Vec<usize>) -> (r:
        Result<(), RunError>)
        requires
            old(self)@.targets_in_hand(targets@),
        ensures
            final(self)@ == old(self)@.used(key, targets@).run,
            old(self)@.used(key, targets@).tells(r),
    {
        proof {
            reveal(RunModel::used);
        }
        let glass: usize = self.glass_hanged(key, targets);
        self.count_use(key);
        if !self.take_effect(key, targets) {
            return Err(RunError::CannotUse(join2(key, " not implemented")));
        }
        if is_of(key, ConsumableSet::Tarot) || is_of(key, ConsumableSet::Planet) {
            self.record.last_tarot_planet = Some(key);
        }
        self.joker_consumable_used(key, glass);
        Ok(())
    }

    pub(crate) fn use_up(&mut self, key: &'static str, targets: &Vec<usize>) -> (r: Result<
        (),
        RunError,
    >)
        requires
            old(self)@.targets_in_hand(targets@),
        ensures
            final(self)@ == old(self)@.used_up(key, targets@).run,
            old(self)@.used_up(key, targets@).tells(r),
    {
        match self.use_consumable_key(key, targets) {
            Err(e) => Err(e),
            Ok(_) => {
                self.remove_used(key);
                Ok(())
            },
        }
    }

    pub(crate) fn drop_consumable(&mut self, idx: usize)
        requires
            idx < old(self)@.consumables.len(),
        ensures
            final(self)@ == old(self)@.without_consumable(idx as nat),
    {
        let c = self.consumables.remove(idx);
        if c.negative {
            self.limits.consumable_slots = self.limits.consumable_slots.wrapping_sub(1);
        }
    }

    /// Use a held consumable on the cards in some places of the hand.
    pub fn use_consumable(&mut self, idx: usize, targets: &[usize]) -> (r: Result<(), RunError>)
        ensures
            final(self)@ == old(self)@.consumable_used(idx, targets@).run,
            old(self)@.consumable_used(idx, targets@).tells(r),
    {
        proof {
            reveal(RunModel::consumable_used);
            reveal(RunModel::unusable);
        }
        if idx >= self.consumables.len() {
            return Err(RunError::BadSlot(with_count("consumable ", idx)));
        }
        let list = list_of(targets);
        let key = self.consumables[idx].key;
        match self.can_use_on(key, &list) {
            Err(why) => Err(RunError::CannotUse(why)),
            Ok(_) => {
                self.drop_consumable(idx);
                self.use_up(key, &list)
            },
        }
    }
}

fn is_of(key: &str, set: ConsumableSet) -> (r: bool)
    ensures
        r == (tarots::set_of(key@) == set),
{
    match items::consumable_by_key(key) {
        Some((_, s)) => s == set,
        None => set == ConsumableSet::Tarot,
    }
}

// ---- laws ----------------------------------------------------------------

/// The Fool never brings back a Fool.
pub proof fn law_the_fool_copies_no_fool(m: RunModel, targets: Seq<usize>)
    requires
        m.unusable("c_fool"@, targets) is None,
    ensures
        m.record.last_tarot_planet matches Some(k) && k@ != "c_fool"@,
{
    reveal(RunModel::unusable);
    reveal_strlit("c_fool");
    reveal_strlit("c_high_priestess");
    reveal_strlit("c_emperor");
    reveal_strlit("c_hermit");
    reveal_strlit("c_temperance");
    reveal_strlit("c_black_hole");
    reveal_strlit("c_wheel_of_fortune");
    reveal_strlit("c_ectoplasm");
    reveal_strlit("c_hex");
    reveal_strlit("c_ankh");
    reveal_strlit("c_aura");
    assert("c_fool"@.len() == 6 && "c_fool"@[2] == 'f');
    assert("c_high_priestess"@.len() == 16);
    assert("c_emperor"@.len() == 9);
    assert("c_hermit"@.len() == 8);
    assert("c_temperance"@.len() == 12);
    assert("c_black_hole"@.len() == 12);
    assert("c_wheel_of_fortune"@.len() == 18);
    assert("c_ectoplasm"@.len() == 11);
    assert("c_hex"@.len() == 5);
    assert("c_ankh"@[2] == 'a');
    assert("c_aura"@[2] == 'a');
    lemma_fool_is_a_tarot();
}

proof fn lemma_fool_is_a_tarot()
    ensures
        tarots::set_of("c_fool"@) == ConsumableSet::Tarot,
{
    reveal(registry::tarot);
    assert(registry::tarot(0).key@ == "c_fool"@);
}

} // verus!
