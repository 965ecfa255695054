//! How things come into a run: numbers, draws from pools, jokers and
//! consumables.
use crate::cards;
use crate::cards::{Card, Edition, Enhancement, Seal, Suit};
use crate::config;
use crate::double::Double;
use crate::items;
use crate::items::{ConsumableSet, JokerId, PoolArgs, PoolSpec, PoolState};
use crate::jokers::effects;
use crate::jokers::{find_joker, owns, JokerState};
use crate::order;
use crate::registry::Key;
use crate::rng::{RngState, Streams};
use crate::run::{Counters, Marks, Reroll, Run, RunModel};
use crate::shop::{JokerArea, OwnedConsumable, OwnedJoker};
use crate::text;
use crate::text::{join2, with_number};
use vstd::prelude::*;

verus! {

// ---- numbers -------------------------------------------------------------

/// The first place from `from` on that holds a number.
pub open spec fn found_from(ids: Seq<u32>, x: u32, from: nat) -> Option<nat>
    decreases ids.len() - from,
{
    if from >= ids.len() {
        None
    } else if ids[from as int] == x {
        Some(from)
    } else {
        found_from(ids, x, from + 1)
    }
}

/// The first place that holds a number.
pub open spec fn found(ids: Seq<u32>, x: u32) -> Option<nat> {
    found_from(ids, x, 0)
}

/// The numbers of cards.
pub open spec fn card_ids(cards: Seq<Card>) -> Seq<u32> {
    Seq::new(cards.len(), |i: int| cards[i].sort_id)
}

/// The numbers of jokers.
pub open spec fn joker_ids(jokers: Seq<OwnedJoker>) -> Seq<u32> {
    Seq::new(jokers.len(), |i: int| jokers[i].sort_id)
}

/// The numbers of consumables.
pub open spec fn consumable_ids(list: Seq<OwnedConsumable>) -> Seq<u32> {
    Seq::new(list.len(), |i: int| list[i].sort_id)
}

pub(crate) fn numbers_of_cards(cards: &Vec<Card>) -> (r: Vec<u32>)
    ensures
        r@ == card_ids(cards@),
{
    let mut ids: Vec<u32> = Vec::new();
    let mut i: usize = 0;
    while i < cards.len()
        invariant
            i <= cards.len(),
            ids@ == card_ids(cards@).take(i as int),
        decreases cards.len() - i,
    {
        ids.push(cards[i].sort_id);
        i = i + 1;
        assert(ids@ =~= card_ids(cards@).take(i as int));
    }
    assert(ids@ =~= card_ids(cards@));
    ids
}

pub(crate) fn numbers_of_jokers(jokers: &Vec<OwnedJoker>) -> (r: Vec<u32>)
    ensures
        r@ == joker_ids(jokers@),
{
    let mut ids: Vec<u32> = Vec::new();
    let mut i: usize = 0;
    while i < jokers.len()
        invariant
            i <= jokers.len(),
            ids@ == joker_ids(jokers@).take(i as int),
        decreases jokers.len() - i,
    {
        ids.push(jokers[i].sort_id);
        i = i + 1;
        assert(ids@ =~= joker_ids(jokers@).take(i as int));
    }
    assert(ids@ =~= joker_ids(jokers@));
    ids
}

pub(crate) fn numbers_of_consumables(list: &Vec<OwnedConsumable>) -> (r: Vec<u32>)
    ensures
        r@ == consumable_ids(list@),
{
    let mut ids: Vec<u32> = Vec::new();
    let mut i: usize = 0;
    while i < list.len()
        invariant
            i <= list.len(),
            ids@ == consumable_ids(list@).take(i as int),
        decreases list.len() - i,
    {
        ids.push(list[i].sort_id);
        i = i + 1;
        assert(ids@ =~= consumable_ids(list@).take(i as int));
    }
    assert(ids@ =~= consumable_ids(list@));
    ids
}

/// The first place that holds a number.
pub(crate) fn find_number(ids: &Vec<u32>, x: u32) -> (r: Option<usize>)
    ensures
        match r {
            Some(i) => found(ids@, x) == Some(i as nat) && i < ids.len() && ids@[i as int] == x,
            None => found(ids@, x) is None,
        },
{
    let mut i: usize = 0;
    while i < ids.len()
        invariant
            i <= ids.len(),
            found(ids@, x) == found_from(ids@, x, i as nat),
        decreases ids.len() - i,
    {
        if ids[i] == x {
            return Some(i);
        }
        i = i + 1;
    }
    None
}

/// A drawn number of a list, which is put in order first.
pub open spec fn picked(s: Streams, key: Seq<char>, ids: Seq<u32>) -> u32 {
    order::sorted(ids, order::number_leq())[s.place(key, ids.len())]
}

pub(crate) fn pick_number(rng: &mut RngState, key: &str, ids: &Vec<u32>) -> (r: u32)
    requires
        ids.len() > 0,
    ensures
        r == picked(old(rng)@, key@, ids@),
        final(rng)@ == old(rng)@.after(key@),
{
    let sorted = order::sort_numbers(ids);
    let i: usize = rng.random_place(key, ids.len());
    sorted[i]
}

// ---- bookkeeping ---------------------------------------------------------

impl RunModel {
    /// The number of the next card. Once the numbers have run out it stays at
    /// the last.
    pub open spec fn next_id(self) -> u32 {
        self.counters.sort_id.saturating_add(1)
    }

    /// The run after a number was given out.
    pub open spec fn numbered(self) -> RunModel {
        RunModel { counters: Counters { sort_id: self.next_id(), ..self.counters }, ..self }
    }

    /// How many of a thing are about.
    pub open spec fn uses(self, key: Seq<char>) -> u32 {
        if self.used_keys.dom().contains(key) {
            self.used_keys[key]
        } else {
            0
        }
    }

    /// The run with one more of a thing about.
    pub open spec fn using(self, key: Seq<char>) -> RunModel {
        RunModel {
            used_keys: self.used_keys.insert(key, self.uses(key).wrapping_add(1)),
            ..self
        }
    }

    /// The run with one less of a thing about. The last one takes its entry
    /// along.
    pub open spec fn released(self, key: Seq<char>) -> RunModel {
        RunModel {
            used_keys: if self.uses(key) > 1 {
                self.used_keys.insert(key, (self.uses(key) - 1) as u32)
            } else {
                self.used_keys.remove(key)
            },
            ..self
        }
    }

    pub open spec fn owns(self, id: JokerId) -> bool {
        owns(self.jokers, id)
    }

    /// What decides which entries a pool offers.
    pub open spec fn pool_state(self, displayed: Seq<Key>) -> PoolState {
        PoolState {
            ante: self.track.ante,
            used: self.used_keys,
            vouchers: self.used_vouchers,
            displayed,
            hands: Some(self.record.hands),
            cards: self.deck + self.hand + self.discard_pile,
            flags: self.pool_flags,
            showman: self.owns(JokerId::RingMaster),
        }
    }

    /// The key drawn from a pool, and the run after.
    pub open spec fn rolled(self, spec: PoolSpec) -> (Key, RunModel) {
        let (key, s) = items::rolled(self.s, spec, self.pool_state(seq![]));
        (key, RunModel { s, ..self })
    }

    /// A consumable of a key that is new in the run.
    pub open spec fn new_consumable(self, key: Key) -> OwnedConsumable {
        OwnedConsumable { key, sort_id: self.next_id(), negative: false, extra_value: 0 }
    }

    /// The run after a consumable was made.
    pub open spec fn made_consumable(self, key: Key) -> RunModel {
        self.numbered().using(key@)
    }

    /// The run with one more consumable.
    pub open spec fn with_consumable(self, key: Key) -> RunModel {
        RunModel {
            consumables: self.consumables.push(self.new_consumable(key)),
            ..self.made_consumable(key)
        }
    }
}

impl Run {
    pub(crate) fn next_sort_id(&mut self) -> (r: u32)
        ensures
            r == old(self)@.next_id(),
            final(self)@ == old(self)@.numbered(),
    {
        self.counters.sort_id = self.counters.sort_id.saturating_add(1);
        self.counters.sort_id
    }

    pub(crate) fn add_used(&mut self, key: &str)
        ensures
            final(self)@ == old(self)@.using(key@),
    {
        let n: u32 = match self.used_keys.get(key) {
            Some(n) => n,
            None => 0,
        };
        self.used_keys.insert(key, n.wrapping_add(1));
        assert(self@ =~= old(self)@.using(key@));
    }

    pub(crate) fn remove_used(&mut self, key: &str)
        ensures
            final(self)@ == old(self)@.released(key@),
    {
        let n: u32 = match self.used_keys.get(key) {
            Some(n) => n,
            None => 0,
        };
        if n > 1 {
            self.used_keys.insert(key, n - 1);
        } else {
            self.used_keys.remove(key);
        }
        assert(self@ =~= old(self)@.released(key@));
    }

    pub(crate) fn joker_owned(&self, id: JokerId) -> (r: bool)
        ensures
            r == self@.owns(id),
    {
        find_joker(&self.jokers, id)
    }

    pub(crate) fn showman_owned(&self) -> (r: bool)
        ensures
            r == self@.owns(JokerId::RingMaster),
    {
        find_joker(&self.jokers, JokerId::RingMaster)
    }

    pub(crate) fn roll(&mut self, spec: &PoolSpec) -> (r: &'static str)
        ensures
            (r, final(self)@) == old(self)@.rolled(*spec),
    {
        let none: Vec<&'static str> = Vec::new();
        assert(none@ =~= seq![]);
        let showman = self.showman_owned();
        let args = PoolArgs {
            ante: self.track.ante,
            used_keys: &self.used_keys,
            used_vouchers: &self.used_vouchers,
            shop_vouchers: &none,
            hands: Some(&self.record.hands),
            deck: &self.deck,
            hand: &self.hand,
            discard: &self.discard_pile,
            pool_flags: &self.pool_flags,
            showman,
        };
        assert(args.state() == self@.pool_state(seq![]));
        let r = items::roll_from_pool(&mut self.rng, spec, &args);
        assert(self@ =~= old(self)@.rolled(*spec).1);
        r
    }

    pub(crate) fn make_consumable(&mut self, key: &'static str) -> (r: OwnedConsumable)
        ensures
            r == old(self)@.new_consumable(key),
            final(self)@ == old(self)@.made_consumable(key),
    {
        let sort_id: u32 = self.next_sort_id();
        self.add_used(key);
        OwnedConsumable { key, sort_id, negative: false, extra_value: 0 }
    }

    pub(crate) fn add_consumable(&mut self, key: &'static str)
        ensures
            final(self)@ == old(self)@.with_consumable(key),
    {
        let c = self.make_consumable(key);
        self.consumables.push(c);
        assert(self@ =~= old(self)@.with_consumable(key));
    }
}

// ---- draws ---------------------------------------------------------------

/// Whether a poll is above a bar of some thousandths.
pub open spec fn above(x: Double, thousandths: nat) -> bool {
    Double::frac(thousandths, 1000).below(x)
}

pub(crate) fn is_above(x: Double, thousandths: u64) -> (r: bool)
    requires
        thousandths <= 1000,
    ensures
        r == above(x, thousandths as nat),
{
    Double::lit(thousandths, 1000).lt(x)
}

impl RunModel {
    /// The key of the polls for the two cards that come in place of others.
    pub open spec fn soul_key(self, set: ConsumableSet) -> Seq<char> {
        "soul_"@ + set.text()@ + text::decimal(self.track.ante as int)
    }

    /// Whether the Soul may come in place of a card of the set: it may as long as
    /// the count of what is in use has no entry for it.
    pub open spec fn soul_open(self, set: ConsumableSet) -> bool {
        (set == ConsumableSet::Tarot || set == ConsumableSet::Spectral)
            && !self.used_keys.dom().contains("c_soul"@)
    }

    /// Whether Black Hole may come in place of a card of the set, in the same way.
    pub open spec fn hole_open(self, set: ConsumableSet) -> bool {
        (set == ConsumableSet::Planet || set == ConsumableSet::Spectral)
            && !self.used_keys.dom().contains("c_black_hole"@)
    }

    /// The run after a draw from a key.
    pub open spec fn after(self, key: Seq<char>) -> RunModel {
        RunModel { s: self.s.after(key), ..self }
    }

    /// The key of a new consumable: one of the two rare cards, if they may come
    /// and their polls are high enough, else one from the pool.
    #[verifier::opaque]
    pub open spec fn consumable_drawn(self, set: ConsumableSet, append: Key, soulable: bool) -> (
        Key,
        RunModel,
    ) {
        let key = self.soul_key(set);
        let soul_polled = soulable && self.soul_open(set);
        let soul = soul_polled && above(self.s.unit(key), 997);
        let m1 = if soul_polled {
            self.after(key)
        } else {
            self
        };
        let hole_polled = soulable && m1.hole_open(set);
        let hole = hole_polled && above(m1.s.unit(key), 997);
        let m2 = if hole_polled {
            m1.after(key)
        } else {
            m1
        };
        if hole {
            ("c_black_hole", m2)
        } else if soul {
            ("c_soul", m2)
        } else {
            m2.rolled(PoolSpec::Consumable { set, append })
        }
    }

    /// What a new joker remembers: a To Do List draws its hand.
    #[verifier::opaque]
    pub open spec fn first_state(self, id: JokerId) -> (JokerState, RunModel) {
        let fresh = JokerState::fresh(id);
        if id == JokerId::TodoList {
            (
                JokerState {
                    to_do_hand: effects::drawn_hand(
                        self.s,
                        effects::visible_hands(self.record.hands, None, 12),
                    ),
                    ..fresh
                },
                self.after("to_do"@),
            )
        } else {
            (fresh, self)
        }
    }

    /// A joker of a kind that is new in the run, plain but for its edition.
    pub open spec fn new_joker(self, id: JokerId, edition: Edition, sort_id: u32, state: JokerState) -> OwnedJoker {
        OwnedJoker {
            id,
            edition,
            sort_id,
            extra_value: 0,
            debuffed: false,
            flipped: false,
            eternal: false,
            hands_at_create: self.record.hands_played_total,
            state,
        }
    }

    /// The run after the poll for the stickers of a joker, which decides
    /// nothing.
    pub open spec fn stickers_polled(self, area: JokerArea) -> RunModel {
        let at = text::decimal(self.track.ante as int);
        match area {
            JokerArea::Shop => self.after("etperpoll"@ + at),
            JokerArea::Pack => self.after("packetper"@ + at),
            JokerArea::Direct => self,
        }
    }

    /// A joker drawn from its pool: its kind, its number, what it remembers,
    /// the poll for its stickers, its edition.
    #[verifier::opaque]
    pub open spec fn joker_made(
        self,
        rarity: Option<Double>,
        legendary: bool,
        append: Key,
        area: JokerArea,
    ) -> (OwnedJoker, RunModel) {
        let (key, m1) = self.rolled(PoolSpec::Joker { rarity, legendary, append });
        let id = joker_of(key@);
        let sort_id = m1.next_id();
        let (state, m2) = m1.numbered().using(key@).first_state(id);
        let m3 = m2.stickers_polled(area);
        let edi = "edi"@ + append@ + text::decimal(self.track.ante as int);
        let edition = items::polled_edition(
            m3.s.unit(edi),
            Double::of(1),
            false,
            false,
            self.rates.edition,
        );
        (self.new_joker(id, edition, sort_id, state), m3.after(edi))
    }

    /// The vouchers on display.
    pub open spec fn displayed(self) -> Seq<Key> {
        match self.shop {
            Some(shop) => Seq::new(shop.vouchers.len(), |i: int| shop.vouchers[i].key),
            None => seq![],
        }
    }

    /// The next voucher.
    #[verifier::opaque]
    pub open spec fn voucher_drawn(self, from_tag: bool) -> (Key, RunModel) {
        let p = items::current_pool(self.s, PoolSpec::Voucher, self.pool_state(self.displayed()));
        let key = if from_tag {
            "Voucher_fromtag"@
        } else {
            p.key
        };
        let (k, s) = items::drawn(p.streams, p.entries, key);
        (k, RunModel { s, ..self })
    }

    /// The next tag.
    #[verifier::opaque]
    pub open spec fn tag_drawn(self) -> (Key, RunModel) {
        match self.offers.forced_tag {
            Some(k) => (k, self),
            None => self.rolled(PoolSpec::Tag),
        }
    }

    /// The run after the cost of a reroll was worked out.
    #[verifier::opaque]
    pub open spec fn reroll_priced(self, skip_increment: bool) -> RunModel {
        let free = if self.reroll.free < 0 {
            0i64
        } else {
            self.reroll.free
        };
        if free > 0 {
            RunModel { reroll: Reroll { free, cost: 0, ..self.reroll }, ..self }
        } else {
            let more = if skip_increment {
                self.reroll.increase
            } else {
                self.reroll.increase.wrapping_add(1)
            };
            let base = match self.reroll.temp_cost {
                Some(c) => c,
                None => self.reroll.base_cost,
            };
            RunModel {
                reroll: Reroll { free, increase: more, cost: base.wrapping_add(more), ..self.reroll },
                ..self
            }
        }
    }

    /// What can be spent.
    pub open spec fn funds(self) -> i64 {
        self.purse.dollars.wrapping_sub(self.purse.bankrupt_at)
    }

    pub open spec fn affords(self, cost: i64) -> bool {
        cost <= 0 || cost <= self.funds()
    }
}

/// The joker with a key.
pub open spec fn joker_of(key: Seq<char>) -> JokerId {
    match items::joker_named(key) {
        Some(m) => m.id,
        None => JokerId::Joker,
    }
}

impl Run {
    pub(crate) fn create_consumable_key(
        &mut self,
        set: ConsumableSet,
        append: &'static str,
        soulable: bool,
    ) -> (r: &'static str)
        ensures
            (r, final(self)@) == old(self)@.consumable_drawn(set, append, soulable),
    {
        proof {
            reveal(RunModel::consumable_drawn);
        }
        let mut soul = false;
        let mut hole = false;
        if soulable {
            let key = with_number(join2("soul_", set.type_str()).as_str(), self.track.ante);
            if (set == ConsumableSet::Tarot || set == ConsumableSet::Spectral)
                && !self.used_keys.contains("c_soul") {
                soul = is_above(self.rng.random(key.as_str()), 997);
            }
            if (set == ConsumableSet::Planet || set == ConsumableSet::Spectral)
                && !self.used_keys.contains("c_black_hole") {
                hole = is_above(self.rng.random(key.as_str()), 997);
            }
        }
        if hole {
            return "c_black_hole";
        }
        if soul {
            return "c_soul";
        }
        self.roll(&PoolSpec::Consumable { set, append })
    }

    pub(crate) fn initial_state(&mut self, id: JokerId) -> (r: JokerState)
        ensures
            (r, final(self)@) == old(self)@.first_state(id),
    {
        proof {
            reveal(RunModel::first_state);
        }
        let mut state = JokerState::initial(id);
        if id == JokerId::TodoList {
            state.to_do_hand = effects::roll_to_do_hand(&mut self.rng, &self.record.hands);
        }
        state
    }

    pub(crate) fn create_joker(
        &mut self,
        rarity: Option<Double>,
        legendary: bool,
        append: &'static str,
        area: JokerArea,
    ) -> (r: OwnedJoker)
        ensures
            (r, final(self)@) == old(self)@.joker_made(rarity, legendary, append, area),
    {
        proof {
            reveal(RunModel::joker_made);
            reveal(RunModel::first_state);
        }
        let key = self.roll(&PoolSpec::Joker { rarity, legendary, append });
        let id = match items::joker_by_key(key) {
            Some(m) => m.id,
            None => JokerId::Joker,
        };
        let sort_id: u32 = self.next_sort_id();
        self.add_used(key);
        let state = self.initial_state(id);
        match area {
            JokerArea::Shop => {
                let _poll = self.rng.random(with_number("etperpoll", self.track.ante).as_str());
            },
            JokerArea::Pack => {
                let _poll = self.rng.random(with_number("packetper", self.track.ante).as_str());
            },
            JokerArea::Direct => {},
        }
        let edi = with_number(join2("edi", append).as_str(), self.track.ante);
        let edition = items::poll_edition(
            &mut self.rng,
            edi.as_str(),
            Double::from_i64(1),
            false,
            false,
            self.rates.edition,
        );
        OwnedJoker {
            id,
            edition,
            sort_id,
            extra_value: 0,
            debuffed: false,
            flipped: false,
            eternal: false,
            hands_at_create: self.record.hands_played_total,
            state,
        }
    }

    fn displayed_vouchers(&self) -> (r: Vec<&'static str>)
        ensures
            r@ == self@.displayed(),
    {
        let mut list: Vec<&'static str> = Vec::new();
        if let Some(shop) = &self.shop {
            let mut i: usize = 0;
            while i < shop.vouchers.len()
                invariant
                    i <= shop.vouchers.len(),
                    self.shop == Some(*shop),
                    list@ == self@.displayed().take(i as int),
                decreases shop.vouchers.len() - i,
            {
                list.push(shop.vouchers[i].key);
                i = i + 1;
                assert(list@ =~= self@.displayed().take(i as int));
            }
        }
        assert(list@ =~= self@.displayed());
        list
    }

    pub(crate) fn next_voucher_key(&mut self, from_tag: bool) -> (r: &'static str)
        ensures
            (r, final(self)@) == old(self)@.voucher_drawn(from_tag),
    {
        proof {
            reveal(RunModel::voucher_drawn);
        }
        let displayed = self.displayed_vouchers();
        let showman = self.showman_owned();
        let args = PoolArgs {
            ante: self.track.ante,
            used_keys: &self.used_keys,
            used_vouchers: &self.used_vouchers,
            shop_vouchers: &displayed,
            hands: Some(&self.record.hands),
            deck: &self.deck,
            hand: &self.hand,
            discard: &self.discard_pile,
            pool_flags: &self.pool_flags,
            showman,
        };
        assert(args.state() == self@.pool_state(self@.displayed()));
        let (pool, pool_key) = items::get_current_pool(&mut self.rng, &PoolSpec::Voucher, &args);
        if from_tag {
            items::pool_draw(&mut self.rng, &pool, "Voucher_fromtag")
        } else {
            items::pool_draw(&mut self.rng, &pool, pool_key.as_str())
        }
    }

    pub(crate) fn next_tag_key(&mut self) -> (r: &'static str)
        ensures
            (r, final(self)@) == old(self)@.tag_drawn(),
    {
        proof {
            reveal(RunModel::tag_drawn);
        }
        match self.offers.forced_tag {
            Some(k) => k,
            None => self.roll(&PoolSpec::Tag),
        }
    }

    pub(crate) fn calculate_reroll_cost(&mut self, skip_increment: bool)
        ensures
            final(self)@ == old(self)@.reroll_priced(skip_increment),
    {
        proof {
            reveal(RunModel::reroll_priced);
        }
        if self.reroll.free < 0 {
            self.reroll.free = 0;
        }
        if self.reroll.free > 0 {
            self.reroll.cost = 0;
            return ;
        }
        if !skip_increment {
            self.reroll.increase = self.reroll.increase.wrapping_add(1);
        }
        let base: i64 = match self.reroll.temp_cost {
            Some(c) => c,
            None => self.reroll.base_cost,
        };
        self.reroll.cost = base.wrapping_add(self.reroll.increase);
    }

    pub(crate) fn funds(&self) -> (r: i64)
        ensures
            r == self@.funds(),
    {
        self.purse.dollars.wrapping_sub(self.purse.bankrupt_at)
    }

    pub(crate) fn affordable(&self, cost: i64) -> (r: bool)
        ensures
            r == self@.affords(cost),
    {
        cost <= 0 || cost <= self.funds()
    }
}

// ---- cards ---------------------------------------------------------------

/// Change every element of a list.
pub(crate) fn alter<T: Copy, F: Fn(T) -> T>(v: &mut Vec<T>, f: F, Ghost(g): Ghost<spec_fn(T) -> T>)
    requires
        forall|x: T| call_requires(f, (x,)),
        forall|x: T, y: T| call_ensures(f, (x,), y) ==> y == g(x),
    ensures
        final(v)@ == old(v)@.map_values(g),
{
    let mut i: usize = 0;
    while i < v.len()
        invariant
            i <= v.len(),
            v.len() == old(v).len(),
            forall|x: T| call_requires(f, (x,)),
            forall|x: T, y: T| call_ensures(f, (x,), y) ==> y == g(x),
            forall|k: int| 0 <= k < i ==> v@[k] == g(old(v)@[k]),
            forall|k: int| i <= k < v.len() ==> v@[k] == old(v)@[k],
        decreases v.len() - i,
    {
        let x = f(v[i]);
        v.set(i, x);
        i = i + 1;
    }
    assert(v@ =~= old(v)@.map_values(g));
}

/// The order of cards in hand: the highest first, older ones first among
/// equals.
pub open spec fn hand_leq() -> spec_fn(Card, Card) -> bool {
    |a: Card, b: Card|
        b.sort_key(false).below(a.sort_key(false)) || (a.sort_key(false).same_value(
            b.sort_key(false),
        ) && a.sort_id <= b.sort_id)
}

/// A hand in order.
pub open spec fn in_order(hand: Seq<Card>) -> Seq<Card> {
    order::sorted(hand, hand_leq())
}

pub(crate) fn sort_hand(hand: &mut Vec<Card>)
    ensures
        final(hand)@ == in_order(old(hand)@),
{
    let le = |a: &Card, b: &Card| -> (c: bool)
        ensures
            c == hand_leq()(*a, *b),
        {
            let x = a.get_nominal(false);
            let y = b.get_nominal(false);
            y.lt(x) || (x.equals(y) && a.sort_id <= b.sort_id)
        };
    let sorted = order::stable_sort(hand, le, Ghost(hand_leq()));
    *hand = sorted;
}

/// The order of cards by number.
pub open spec fn mark_leq() -> spec_fn((u32, u8, Suit), (u32, u8, Suit)) -> bool {
    |a: (u32, u8, Suit), b: (u32, u8, Suit)| a.0 <= b.0
}

/// The cards among the first `n` that have a rank and a suit.
pub open spec fn marked(cards: Seq<Card>, n: nat) -> Seq<(u32, u8, Suit)>
    decreases n,
{
    if n == 0 {
        seq![]
    } else {
        let c = cards[n - 1];
        let rest = marked(cards, (n - 1) as nat);
        if c.enhancement != Enhancement::Stone {
            rest.push((c.sort_id, c.rank.0, c.suit))
        } else {
            rest
        }
    }
}

proof fn lemma_marked_appended(a: Seq<Card>, b: Seq<Card>, n: nat)
    requires
        n <= b.len(),
    ensures
        marked(a + b, a.len() + n) == marked(a, a.len()) + marked(b, n),
    decreases n,
{
    if n == 0 {
        lemma_marked_prefix(a + b, a, a.len());
        assert(marked(a, a.len()) + marked(b, 0) =~= marked(a, a.len()));
    } else {
        lemma_marked_appended(a, b, (n - 1) as nat);
        assert((a + b)[a.len() + n - 1] == b[n - 1]);
        assert(marked(a + b, a.len() + n) =~= marked(a, a.len()) + marked(b, n));
    }
}

proof fn lemma_marked_prefix(x: Seq<Card>, y: Seq<Card>, n: nat)
    requires
        n <= x.len(),
        n <= y.len(),
        forall|i: int| 0 <= i < n ==> x[i] == y[i],
    ensures
        marked(x, n) == marked(y, n),
    decreases n,
{
    if n > 0 {
        lemma_marked_prefix(x, y, (n - 1) as nat);
    }
}

fn mark_cards(cards: &Vec<Card>, list: &mut Vec<(u32, u8, Suit)>)
    ensures
        final(list)@ == old(list)@ + marked(cards@, cards@.len()),
{
    let mut i: usize = 0;
    assert(list@ =~= old(list)@ + marked(cards@, 0));
    while i < cards.len()
        invariant
            i <= cards.len(),
            list@ == old(list)@ + marked(cards@, i as nat),
        decreases cards.len() - i,
    {
        let c = cards[i];
        if c.enhancement != Enhancement::Stone {
            list.push((c.sort_id, c.rank.0, c.suit));
        }
        i = i + 1;
        assert(list@ =~= old(list)@ + marked(cards@, i as nat));
    }
}

/// The seal that a poll stands for.
pub open spec fn polled_seal(x: Double) -> Seal {
    if above(x, 750) {
        Seal::Red
    } else if above(x, 500) {
        Seal::Blue
    } else if above(x, 250) {
        Seal::Gold
    } else {
        Seal::Purple
    }
}

pub(crate) fn seal_from_poll(x: Double) -> (r: Seal)
    ensures
        r == polled_seal(x),
{
    if is_above(x, 750) {
        Seal::Red
    } else if is_above(x, 500) {
        Seal::Blue
    } else if is_above(x, 250) {
        Seal::Gold
    } else {
        Seal::Purple
    }
}

/// The suits as the Ancient Joker goes through them.
pub open spec fn ancient_order(i: int) -> Suit {
    if i == 0 {
        Suit::Spades
    } else if i == 1 {
        Suit::Hearts
    } else if i == 2 {
        Suit::Clubs
    } else {
        Suit::Diamonds
    }
}

/// The first `n` suits but one.
pub open spec fn other_suits(but: Option<Suit>, n: nat) -> Seq<Suit>
    decreases n,
{
    if n == 0 {
        seq![]
    } else {
        let rest = other_suits(but, (n - 1) as nat);
        if but == Some(ancient_order(n - 1)) {
            rest
        } else {
            rest.push(ancient_order(n - 1))
        }
    }
}

impl RunModel {
    /// The playing cards that are left.
    pub open spec fn cards_left(self) -> Seq<Card> {
        self.deck + self.hand + self.discard_pile
    }

    /// The cards with a rank and a suit, by number.
    pub open spec fn targets(self) -> Seq<(u32, u8, Suit)> {
        order::sorted(marked(self.cards_left(), self.cards_left().len()), mark_leq())
    }

    /// A drawn card with a rank and a suit, if there is any.
    pub open spec fn target(self, name: Key) -> Option<(u32, u8, Suit)> {
        let list = self.targets();
        if list.len() == 0 {
            None
        } else {
            Some(list[self.s.place(name@ + text::decimal(self.track.ante as int), list.len())])
        }
    }

    /// The run after that draw.
    pub open spec fn after_target(self, name: Key) -> RunModel {
        if self.targets().len() == 0 {
            self
        } else {
            self.after(name@ + text::decimal(self.track.ante as int))
        }
    }

    /// The card that the Idol looks for is drawn.
    #[verifier::opaque]
    pub open spec fn idol_reset(self) -> RunModel {
        let idol_card = match self.target("idol") {
            Some(t) => (t.1, t.2),
            None => (14, Suit::Spades),
        };
        RunModel { marks: Marks { idol_card, ..self.marks }, ..self.after_target("idol") }
    }

    /// The rank that Mail-In Rebate looks for is drawn.
    #[verifier::opaque]
    pub open spec fn mail_reset(self) -> RunModel {
        let mail_card_id = match self.target("mail") {
            Some(t) => t.1,
            None => 14,
        };
        RunModel { marks: Marks { mail_card_id, ..self.marks }, ..self.after_target("mail") }
    }

    /// The suit that the Castle looks for is drawn.
    #[verifier::opaque]
    pub open spec fn castle_reset(self) -> RunModel {
        let castle_suit = match self.target("cas") {
            Some(t) => t.2,
            None => Suit::Spades,
        };
        RunModel { marks: Marks { castle_suit, ..self.marks }, ..self.after_target("cas") }
    }

    /// The suit that the Ancient Joker looks for is drawn; it is never the same
    /// twice in a row.
    #[verifier::opaque]
    pub open spec fn ancient_reset(self) -> RunModel {
        let list = other_suits(self.marks.ancient_suit, 4);
        let key = "anc"@ + text::decimal(self.track.ante as int);
        let suit = list[self.s.place(key, list.len())];
        RunModel { marks: Marks { ancient_suit: Some(suit), ..self.marks }, ..self.after(key) }
    }

    /// A new playing card with a drawn front.
    pub open spec fn new_card(self, key: Seq<char>) -> Card {
        let (suit, rank) = config::front(self.s.place(key, 52));
        cards::plain_card(rank, suit, self.next_id())
    }

    /// The run after one more playing card was counted.
    pub open spec fn one_more_card(self) -> RunModel {
        RunModel {
            counters: Counters {
                playing_card: self.counters.playing_card.wrapping_add(1),
                ..self.counters
            },
            ..self
        }
    }
}

impl Run {
    fn targets(&self) -> (r: Vec<(u32, u8, Suit)>)
        ensures
            r@ == self@.targets(),
    {
        let mut list: Vec<(u32, u8, Suit)> = Vec::new();
        mark_cards(&self.deck, &mut list);
        mark_cards(&self.hand, &mut list);
        mark_cards(&self.discard_pile, &mut list);
        proof {
            let (d, h, p) = (self.deck@, self.hand@, self.discard_pile@);
            lemma_marked_appended(d, h, h.len());
            lemma_marked_appended(d + h, p, p.len());
            assert(list@ =~= marked(d + h + p, (d + h + p).len()));
        }
        let le = |a: &(u32, u8, Suit), b: &(u32, u8, Suit)| -> (c: bool)
            ensures
                c == mark_leq()(*a, *b),
            { a.0 <= b.0 };
        order::stable_sort(&list, le, Ghost(mark_leq()))
    }

    fn draw_target(&mut self, name: &'static str) -> (r: Option<(u32, u8, Suit)>)
        ensures
            r == old(self)@.target(name),
            final(self)@ == old(self)@.after_target(name),
    {
        let list = self.targets();
        if list.len() == 0 {
            return None;
        }
        let key = with_number(name, self.track.ante);
        let i: usize = items::element_index(&mut self.rng, key.as_str(), list.len());
        Some(list[i])
    }

    pub(crate) fn reset_idol_card(&mut self)
        ensures
            final(self)@ == old(self)@.idol_reset(),
    {
        proof {
            reveal(RunModel::idol_reset);
        }
        self.marks.idol_card = match self.draw_target("idol") {
            Some(t) => (t.1, t.2),
            None => (14, Suit::Spades),
        };
    }

    pub(crate) fn reset_mail_rank(&mut self)
        ensures
            final(self)@ == old(self)@.mail_reset(),
    {
        proof {
            reveal(RunModel::mail_reset);
        }
        self.marks.mail_card_id = match self.draw_target("mail") {
            Some(t) => t.1,
            None => 14,
        };
    }

    pub(crate) fn reset_castle_card(&mut self)
        ensures
            final(self)@ == old(self)@.castle_reset(),
    {
        proof {
            reveal(RunModel::castle_reset);
        }
        self.marks.castle_suit = match self.draw_target("cas") {
            Some(t) => t.2,
            None => Suit::Spades,
        };
    }

    pub(crate) fn reset_ancient_card(&mut self)
        ensures
            final(self)@ == old(self)@.ancient_reset(),
    {
        proof {
            reveal(RunModel::ancient_reset);
        }
        let now = self.marks.ancient_suit;
        let mut pool: Vec<Suit> = Vec::new();
        let mut i: usize = 0;
        assert(pool@ =~= seq![]);
        while i < 4
            invariant
                i <= 4,
                pool@ == other_suits(now, i as nat),
                i == 1 ==> pool.len() > 0 || now == Some(Suit::Spades),
                i >= 2 ==> pool.len() > 0,
            decreases 4 - i,
        {
            let suit = match i {
                0 => Suit::Spades,
                1 => Suit::Hearts,
                2 => Suit::Clubs,
                _ => Suit::Diamonds,
            };
            let same = match now {
                Some(s) => s == suit,
                None => false,
            };
            if !same {
                pool.push(suit);
            }
            i = i + 1;
            assert(suit == ancient_order(i - 1));
        }
        let key = with_number("anc", self.track.ante);
        let k: usize = items::element_index(&mut self.rng, key.as_str(), pool.len());
        self.marks.ancient_suit = Some(pool[k]);
    }

    /// A new playing card with a front drawn from `key`.
    pub(crate) fn make_card(&mut self, key: &str) -> (r: Card)
        ensures
            r == old(self)@.new_card(key@),
            final(self)@ == old(self)@.after(key@).numbered(),
    {
        let i: usize = items::element_index(&mut self.rng, key, 52);
        let (suit, rank) = items::card_front_from_index(i);
        let sort_id: u32 = self.next_sort_id();
        Card::new(rank, suit, sort_id)
    }

    pub(crate) fn count_card(&mut self)
        ensures
            final(self)@ == old(self)@.one_more_card(),
    {
        self.counters.playing_card = self.counters.playing_card.wrapping_add(1);
    }
}

// ---- laws ----------------------------------------------------------------

proof fn lemma_other_suits(but: Option<Suit>, n: nat, i: int)
    requires
        0 <= i < other_suits(but, n).len(),
    ensures
        but != Some(other_suits(but, n)[i]),
    decreases n,
{
    let rest = other_suits(but, (n - 1) as nat);
    if i < rest.len() {
        lemma_other_suits(but, (n - 1) as nat, i);
    }
}

/// The Ancient Joker never looks for one suit twice in a row.
pub proof fn law_the_ancient_suit_changes(m: RunModel)
    ensures
        m.ancient_reset().marks.ancient_suit is Some,
        m.ancient_reset().marks.ancient_suit != m.marks.ancient_suit,
{
    reveal(RunModel::ancient_reset);
    reveal_with_fuel(other_suits, 5);
    let list = other_suits(m.marks.ancient_suit, 4);
    let key = "anc"@ + text::decimal(m.track.ante as int);
    assert(list.len() >= 3);
    lemma_other_suits(m.marks.ancient_suit, 4, m.s.place(key, list.len()));
}

/// Putting a hand in order keeps its cards.
pub proof fn law_ordering_a_hand_keeps_its_cards(hand: Seq<Card>)
    ensures
        in_order(hand).to_multiset() == hand.to_multiset(),
{
    order::lemma_sorted_permutes(hand, hand_leq());
}

} // verus!
