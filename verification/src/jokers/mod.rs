//! Jokers: what they remember, what they see of a run, and what they do.
pub mod effects;
pub mod engine;

pub use self::engine::EngineHooks;

use crate::cards::{Card, Enhancement, HandType, Suit};
use crate::double::Double;
use crate::items::{ConsumableSet, JokerId};
use crate::registry::Key;
use crate::scoring;
use crate::shop::OwnedJoker;
use vstd::prelude::*;

verus! {

/// What a joker remembers.
#[derive(Debug, Clone, Copy, PartialEq, Eq, Structural)]
pub struct JokerState {
    pub mult: Double,
    pub chips: Double,
    pub x_mult: Double,
    /// A counter: hands left, hand size, payout, rounds, discards or a factor,
    /// as the joker has it.
    pub extra: Double,
    /// The hand of a To Do List.
    pub to_do_hand: HandType,
}

impl JokerState {
    /// What a new joker remembers.
    pub open spec fn fresh(id: JokerId) -> JokerState {
        JokerState {
            mult: if id == JokerId::Popcorn {
                Double::of(20)
            } else {
                Double::of(0)
            },
            chips: if id == JokerId::IceCream {
                Double::of(100)
            } else {
                Double::of(0)
            },
            x_mult: match id {
                JokerId::Ramen => Double::of(2),
                JokerId::Duo => Double::of(2),
                JokerId::Tribe => Double::of(2),
                JokerId::Trio => Double::of(3),
                JokerId::Order => Double::of(3),
                JokerId::Family => Double::of(4),
                _ => Double::of(1),
            },
            extra: match id {
                JokerId::Selzer => Double::of(10),
                JokerId::TurtleBean => Double::of(5),
                JokerId::Rocket => Double::of(1),
                JokerId::Yorick => Double::of(23),
                JokerId::Caino => Double::of(1),
                _ => Double::of(0),
            },
            to_do_hand: HandType::HighCard,
        }
    }

    pub fn initial(id: JokerId) -> (r: Self)
        ensures
            r == JokerState::fresh(id),
    {
        let zero = Double::from_i64(0);
        let mut s = JokerState {
            mult: zero,
            chips: zero,
            x_mult: Double::from_i64(1),
            extra: zero,
            to_do_hand: HandType::HighCard,
        };
        match id {
            JokerId::Popcorn => {
                s.mult = Double::from_i64(20);
            },
            JokerId::IceCream => {
                s.chips = Double::from_i64(100);
            },
            JokerId::Selzer => {
                s.extra = Double::from_i64(10);
            },
            JokerId::Ramen | JokerId::Duo | JokerId::Tribe => {
                s.x_mult = Double::from_i64(2);
            },
            JokerId::Trio | JokerId::Order => {
                s.x_mult = Double::from_i64(3);
            },
            JokerId::Family => {
                s.x_mult = Double::from_i64(4);
            },
            JokerId::TurtleBean => {
                s.extra = Double::from_i64(5);
            },
            JokerId::Rocket => {
                s.extra = Double::from_i64(1);
            },
            JokerId::Yorick => {
                s.extra = Double::from_i64(23);
            },
            JokerId::Caino => {
                s.extra = Double::from_i64(1);
            },
            _ => {},
        }
        s
    }
}

/// What jokers see of a run while it is in one of its windows.
#[derive(Debug, Clone, Copy, PartialEq, Eq)]
pub struct JokerEnv {
    pub ante: i64,
    /// 1, doubled by each Oops! All 6s.
    pub prob_normal: Double,
    pub deck_len: usize,
    pub discards_left: i64,
    pub discards_used_round: i64,
    pub hands_left: i64,
    pub hands_played_round: i64,
    pub hands_played_total: i64,
    pub dollars: i64,
    pub skips: i64,
    pub consumables_len: usize,
    pub consumable_slots: usize,
    pub joker_slots: usize,
    pub tarots_used: i64,
    pub planets_used: i64,
    pub mail_card_id: u8,
    pub idol_card: (u8, Suit),
    pub ancient_suit: Option<Suit>,
    pub castle_suit: Suit,
    pub discount_percent: i64,
    pub observatory: bool,
    pub playing_cards_len: usize,
    pub starting_deck_size: usize,
    pub steel_tally: i64,
    pub stone_tally: i64,
    pub driver_tally: i64,
    pub nine_tally: i64,
    pub blind_is_boss: bool,
    pub blind_chips: Double,
    pub game_chips: Double,
    /// Cards made in the window are numbered from here.
    pub sort_id_base: u32,
}

/// The environment of no run.
pub open spec fn default_env() -> JokerEnv {
    JokerEnv {
        ante: 0,
        prob_normal: Double::of(1),
        deck_len: 0,
        discards_left: 0,
        discards_used_round: 0,
        hands_left: 0,
        hands_played_round: 0,
        hands_played_total: 0,
        dollars: 0,
        skips: 0,
        consumables_len: 0,
        consumable_slots: 0,
        joker_slots: 0,
        tarots_used: 0,
        planets_used: 0,
        mail_card_id: 14,
        idol_card: (14, Suit::Spades),
        ancient_suit: None,
        castle_suit: Suit::Spades,
        discount_percent: 0,
        observatory: false,
        playing_cards_len: 0,
        starting_deck_size: 52,
        steel_tally: 0,
        stone_tally: 0,
        driver_tally: 0,
        nine_tally: 0,
        blind_is_boss: false,
        blind_chips: Double::of(0),
        game_chips: Double::of(0),
        sort_id_base: 100_000,
    }
}

impl Default for JokerEnv {
    fn default() -> (r: Self)
        ensures
            r == default_env(),
    {
        JokerEnv {
            ante: 0,
            prob_normal: Double::from_i64(1),
            deck_len: 0,
            discards_left: 0,
            discards_used_round: 0,
            hands_left: 0,
            hands_played_round: 0,
            hands_played_total: 0,
            dollars: 0,
            skips: 0,
            consumables_len: 0,
            consumable_slots: 0,
            joker_slots: 0,
            tarots_used: 0,
            planets_used: 0,
            mail_card_id: 14,
            idol_card: (14, Suit::Spades),
            ancient_suit: None,
            castle_suit: Suit::Spades,
            discount_percent: 0,
            observatory: false,
            playing_cards_len: 0,
            starting_deck_size: 52,
            steel_tally: 0,
            stone_tally: 0,
            driver_tally: 0,
            nine_tally: 0,
            blind_is_boss: false,
            blind_chips: Double::from_i64(0),
            game_chips: Double::from_i64(0),
            sort_id_base: 100_000,
        }
    }
}

/// What jokers leave to be done once a window closes, in order.
#[derive(Debug, Clone, Copy, PartialEq)]
pub enum OutEvent {
    /// Make a consumable; the text goes into the key of its draw.
    CreateConsumable(ConsumableSet, Key),
    /// Destroy the joker of a number.
    DestroyJoker(u32),
    SetGrosMichelExtinct,
    /// Make that many common jokers.
    CreateJokers(usize),
    DisableBoss,
    /// Trade the discards for three hands.
    Burglar,
    /// Put a Stone card into the deck.
    CreateMarbleStone,
    /// Put a random sealed card into the hand.
    CreateCertificate,
    /// Raise what everything sells for.
    GiftCard,
    /// One card less in hand.
    TurtleBeanShrink,
}

/// The contents of an outbox.
#[verifier::ext_equal]
pub struct Outbox {
    pub events: Seq<OutEvent>,
    pub dollar_buffer: i64,
    pub joker_buffer: i64,
    pub sort_ids_used: u32,
    pub playing_cards_delta: u32,
}

/// How many consumables the first `n` events make.
pub open spec fn consumables_queued(events: Seq<OutEvent>, n: nat) -> nat
    decreases n,
{
    if n == 0 {
        0
    } else {
        consumables_queued(events, (n - 1) as nat) + (if events[n - 1] is CreateConsumable {
            1nat
        } else {
            0
        })
    }
}

impl Outbox {
    pub open spec fn empty() -> Outbox {
        Outbox {
            events: seq![],
            dollar_buffer: 0,
            joker_buffer: 0,
            sort_ids_used: 0,
            playing_cards_delta: 0,
        }
    }

    /// The outbox with one more event.
    pub open spec fn and(self, e: OutEvent) -> Outbox {
        Outbox { events: self.events.push(e), ..self }
    }

    /// The outbox after a payment.
    pub open spec fn paid(self, n: i64) -> Outbox {
        Outbox { dollar_buffer: self.dollar_buffer.wrapping_add(n), ..self }
    }

    /// How many consumables are on their way.
    pub open spec fn queued(self) -> nat {
        consumables_queued(self.events, self.events.len())
    }

    /// Whether one more consumable finds room.
    pub open spec fn has_room(self, env: JokerEnv) -> bool {
        env.consumables_len + self.queued() < env.consumable_slots
    }
}

/// What the jokers of one window left to be done.
#[derive(Debug)]
pub struct JokerOutbox {
    pub events: Vec<OutEvent>,
    /// Dollars paid in this window.
    pub dollar_buffer: i64,
    /// Jokers that are about to come, less those that are about to go.
    pub joker_buffer: i64,
    /// Cards made in this window.
    pub sort_ids_used: u32,
    pub playing_cards_delta: u32,
}

impl View for JokerOutbox {
    type V = Outbox;

    open spec fn view(&self) -> Outbox {
        Outbox {
            events: self.events@,
            dollar_buffer: self.dollar_buffer,
            joker_buffer: self.joker_buffer,
            sort_ids_used: self.sort_ids_used,
            playing_cards_delta: self.playing_cards_delta,
        }
    }
}

impl Default for JokerOutbox {
    fn default() -> (r: Self)
        ensures
            r@ == Outbox::empty(),
    {
        JokerOutbox {
            events: Vec::new(),
            dollar_buffer: 0,
            joker_buffer: 0,
            sort_ids_used: 0,
            playing_cards_delta: 0,
        }
    }
}

impl JokerOutbox {
    /// How many consumables are on their way.
    pub fn consumable_buffer(&self) -> (r: usize)
        ensures
            r == self@.queued(),
    {
        let mut n: usize = 0;
        let mut i: usize = 0;
        while i < self.events.len()
            invariant
                i <= self.events.len(),
                n == consumables_queued(self.events@, i as nat),
                n <= i,
            decreases self.events.len() - i,
        {
            if let OutEvent::CreateConsumable(..) = self.events[i] {
                n = n + 1;
            }
            i = i + 1;
        }
        n
    }

    pub(crate) fn has_room(&self, env: &JokerEnv) -> (r: bool)
        ensures
            r == self@.has_room(*env),
    {
        (env.consumables_len as u128) + (self.consumable_buffer() as u128) < (
        env.consumable_slots as u128)
    }

    pub(crate) fn push(&mut self, e: OutEvent)
        ensures
            final(self)@ == old(self)@.and(e),
    {
        self.events.push(e);
        assert(self@ =~= old(self)@.and(e));
    }

    pub(crate) fn pay(&mut self, n: i64)
        ensures
            final(self)@ == old(self)@.paid(n),
    {
        self.dollar_buffer = self.dollar_buffer.wrapping_add(n);
    }
}

/// Whether a card counts as a face: never while debuffed; every other card
/// does with Pareidolia.
pub open spec fn is_face(card: Card, pareidolia: bool) -> bool {
    !card.debuff && card.boss_face(pareidolia)
}

pub(crate) fn card_is_face(card: &Card, pareidolia: bool) -> (r: bool)
    ensures
        r == is_face(*card, pareidolia),
{
    if card.debuff {
        return false;
    }
    (card.enhancement != Enhancement::Stone && card.rank.is_face()) || pareidolia
}

/// Whether a joker is owned and not debuffed.
pub open spec fn owns(jokers: Seq<OwnedJoker>, id: JokerId) -> bool {
    exists|i: int| 0 <= i < jokers.len() && (#[trigger] jokers[i]).id == id && !jokers[i].debuffed
}

pub(crate) fn find_joker(jokers: &Vec<OwnedJoker>, id: JokerId) -> (r: bool)
    ensures
        r == owns(jokers@, id),
{
    let mut i: usize = 0;
    while i < jokers.len()
        invariant
            i <= jokers.len(),
            forall|k: int|
                0 <= k < i ==> !((#[trigger] jokers@[k]).id == id && !jokers@[k].debuffed),
        decreases jokers.len() - i,
    {
        if jokers[i].id == id && !jokers[i].debuffed {
            return true;
        }
        i = i + 1;
    }
    false
}

/// The joker that acts in place `i`, after `depth` copies, and whether it acts
/// through a copy. Blueprint copies its right neighbour and Brainstorm the
/// leftmost joker; a debuffed joker ends the chain, and so does one that goes
/// round in a circle.
pub open spec fn resolved_from(jokers: Seq<OwnedJoker>, i: usize, depth: nat, bp: bool) -> Option<
    (usize, bool),
>
    decreases jokers.len() + 2 - depth,
{
    if i >= jokers.len() || jokers[i as int].debuffed {
        None
    } else {
        match jokers[i as int].id {
            JokerId::Blueprint => if i + 1 >= jokers.len() || depth > jokers.len() {
                None
            } else {
                resolved_from(jokers, (i + 1) as usize, depth + 1, true)
            },
            JokerId::Brainstorm => if i == 0 || depth > jokers.len() {
                None
            } else {
                resolved_from(jokers, 0, depth + 1, true)
            },
            _ => Some((i, bp)),
        }
    }
}

/// The joker that acts in place `i`, and whether it acts through a copy.
pub open spec fn resolved(jokers: Seq<OwnedJoker>, i: usize) -> Option<(usize, bool)> {
    resolved_from(jokers, i, 0, false)
}

pub fn resolve_effective(jokers: &Vec<OwnedJoker>, start: usize) -> (r: Option<(usize, bool)>)
    ensures
        r == resolved(jokers@, start),
        r matches Some((t, bp)) ==> t < jokers.len(),
{
    let n: usize = jokers.len();
    let mut idx: usize = start;
    let mut left: usize = n;
    let mut last: bool = false;
    let mut bp: bool = false;
    let ghost mut depth: nat = 0;
    // `left` and `last` count the copies that may still be followed: one more
    // than there are jokers.
    loop
        invariant
            n == jokers@.len(),
            left <= n,
            depth == n - left + (if last {
                1int
            } else {
                0
            }),
            last ==> left == 0,
            resolved_from(jokers@, idx, depth, bp) == resolved(jokers@, start),
        decreases n + 2 - depth,
    {
        if idx >= n || jokers[idx].debuffed {
            return None;
        }
        match jokers[idx].id {
            JokerId::Blueprint => {
                if idx >= n - 1 || last {
                    return None;
                }
                idx = idx + 1;
            },
            JokerId::Brainstorm => {
                if idx == 0 || last {
                    return None;
                }
                idx = 0;
            },
            _ => {
                return Some((idx, bp));
            },
        }
        if left > 0 {
            left = left - 1;
        } else {
            last = true;
        }
        bp = true;
        proof {
            depth = depth + 1;
        }
    }
}

proof fn lemma_resolved(jokers: Seq<OwnedJoker>, i: usize, depth: nat, bp: bool)
    ensures
        resolved_from(jokers, i, depth, bp) matches Some((t, copy)) ==> {
            &&& t < jokers.len()
            &&& !jokers[t as int].debuffed
            &&& jokers[t as int].id != JokerId::Blueprint
            &&& jokers[t as int].id != JokerId::Brainstorm
            &&& bp ==> copy
            &&& !copy ==> t == i
        },
    decreases jokers.len() + 2 - depth,
{
    if i < jokers.len() && !jokers[i as int].debuffed && depth <= jokers.len() {
        if jokers[i as int].id == JokerId::Blueprint && i + 1 < jokers.len() {
            lemma_resolved(jokers, (i + 1) as usize, depth + 1, true);
        } else if jokers[i as int].id == JokerId::Brainstorm && i != 0 {
            lemma_resolved(jokers, 0, depth + 1, true);
        }
    }
}

/// The joker that acts is owned, not debuffed, and not itself a copy of
/// another; and it acts through no copy exactly if it is the joker that was
/// asked for.
pub proof fn law_resolution_ends_at_an_acting_joker(jokers: Seq<OwnedJoker>, i: usize)
    ensures
        resolved(jokers, i) matches Some((t, copy)) ==> {
            &&& t < jokers.len()
            &&& !jokers[t as int].debuffed
            &&& jokers[t as int].id != JokerId::Blueprint
            &&& jokers[t as int].id != JokerId::Brainstorm
            &&& !copy ==> t == i
            &&& copy ==> jokers[i as int].id == JokerId::Blueprint || jokers[i as int].id
                == JokerId::Brainstorm
        },
        i >= jokers.len() || jokers[i as int].debuffed ==> resolved(jokers, i) is None,
        i < jokers.len() && !jokers[i as int].debuffed && jokers[i as int].id != JokerId::Blueprint
            && jokers[i as int].id != JokerId::Brainstorm ==> resolved(jokers, i) == Some((i, false)),
{
    lemma_resolved(jokers, i, 0, false);
}

/// What a joker adds to the score on its own: multiplier, then chips, then a
/// factor, where a zero factor means none.
#[derive(Debug, Clone, Copy, PartialEq, Eq, Structural)]
pub struct MainEffect {
    pub mult_mod: Double,
    pub chip_mod: Double,
    pub x_mult_mod: Double,
}

impl MainEffect {
    /// The multiplier after the effect.
    pub open spec fn mult_after(self, mult: Double) -> Double {
        let m = mult.plus(self.mult_mod);
        if scoring::is_zero(self.x_mult_mod) {
            m
        } else {
            m.times(self.x_mult_mod)
        }
    }

    fn apply(&self, chips: &mut Double, mult: &mut Double)
        ensures
            *final(chips) == old(chips).plus(self.chip_mod),
            *final(mult) == self.mult_after(*old(mult)),
    {
        *mult = mult.add(self.mult_mod);
        *chips = chips.add(self.chip_mod);
        if !scoring::zero(self.x_mult_mod) {
            *mult = mult.mul(self.x_mult_mod);
        }
    }
}

} // verus!
