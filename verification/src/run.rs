//! The state of a run, and how it is read.
use crate::blinds::{ActiveBlind, BlindProto};
use crate::cards::{Card, HandType, Suit};
use crate::double::Double;
use crate::keymap::KeyMap;
use crate::registry::Key;
use crate::rng::{RngState, Streams};
use crate::scoring::{HandsTable, PlayModel, PlayResult};
use crate::shop::{
    OwnedConsumable, OwnedJoker, PackModel, PackState, RunTag, ShopModel, ShopState,
};
use crate::text::join2;
use vstd::prelude::*;

verus! {

/// What a run waits for.
#[derive(Debug, Clone, Copy, PartialEq, Eq, Structural)]
#[non_exhaustive]
pub enum State {
    BlindSelect,
    SelectingHand,
    RoundEval,
    Shop,
    PackOpen,
    GameOver,
    Won,
}

/// The blinds of an ante.
#[derive(Debug, Clone, Copy, PartialEq, Eq, Structural)]
pub enum BlindStage {
    Small,
    Big,
    Boss,
}

/// What can be done next. Cards are chosen in the call that does it.
#[derive(Debug, Clone, Copy, PartialEq, Eq, Structural)]
#[non_exhaustive]
pub enum Action {
    SelectBlind,
    SkipBlind,
    RerollBoss,
    Play,
    Discard,
    CashOut,
    BuyShopItem(usize),
    BuyAndUseShopItem(usize),
    RedeemVoucher(usize),
    BuyPack(usize),
    Reroll,
    LeaveShop,
    UseConsumable(usize),
    SellConsumable(usize),
    SellJoker(usize),
    PickPackItem(usize),
    SkipPack,
}

/// Why something could not be done.
#[derive(Debug, Clone, PartialEq, Eq)]
#[non_exhaustive]
pub enum RunError {
    WrongState,
    BadCardSelection(String),
    NoDiscardsLeft,
    BadSlot(String),
    InsufficientFunds,
    NoSpace,
    CannotUse(String),
}

/// Why something could not be done, with its text.
pub enum Refusal {
    WrongState,
    BadCardSelection(Seq<char>),
    NoDiscardsLeft,
    BadSlot(Seq<char>),
    InsufficientFunds,
    NoSpace,
    CannotUse(Seq<char>),
}

impl View for RunError {
    type V = Refusal;

    open spec fn view(&self) -> Refusal {
        match self {
            RunError::WrongState => Refusal::WrongState,
            RunError::BadCardSelection(s) => Refusal::BadCardSelection(s@),
            RunError::NoDiscardsLeft => Refusal::NoDiscardsLeft,
            RunError::BadSlot(s) => Refusal::BadSlot(s@),
            RunError::InsufficientFunds => Refusal::InsufficientFunds,
            RunError::NoSpace => Refusal::NoSpace,
            RunError::CannotUse(s) => Refusal::CannotUse(s@),
        }
    }
}

impl Refusal {
    /// The message.
    pub open spec fn message(self) -> Seq<char> {
        match self {
            Refusal::WrongState => "action not legal in current state"@,
            Refusal::BadCardSelection(s) => "bad card selection: "@ + s,
            Refusal::NoDiscardsLeft => "no discards left"@,
            Refusal::BadSlot(s) => "bad slot: "@ + s,
            Refusal::InsufficientFunds => "not enough money"@,
            Refusal::NoSpace => "no space"@,
            Refusal::CannotUse(s) => "cannot use: "@ + s,
        }
    }
}

impl RunError {
    /// The message.
    pub fn message(&self) -> (r: String)
        ensures
            r@ == self@.message(),
    {
        match self {
            RunError::WrongState => "action not legal in current state".to_owned(),
            RunError::BadCardSelection(s) => join2("bad card selection: ", s.as_str()),
            RunError::NoDiscardsLeft => "no discards left".to_owned(),
            RunError::BadSlot(s) => join2("bad slot: ", s.as_str()),
            RunError::InsufficientFunds => "not enough money".to_owned(),
            RunError::NoSpace => "no space".to_owned(),
            RunError::CannotUse(s) => join2("cannot use: ", s.as_str()),
        }
    }
}

/// Where a run stands.
#[derive(Debug, Clone, Copy, PartialEq, Eq)]
pub struct Track {
    pub ante: i64,
    /// The ante that blinds are sized by.
    pub blind_ante: i64,
    pub round: i64,
    pub blind_on_deck: BlindStage,
    pub boss_choice: Key,
    pub small_defeated: bool,
    pub big_defeated: bool,
    pub small_skipped: bool,
    pub big_skipped: bool,
    pub boss_rerolled: bool,
    pub last_blind_boss: bool,
    pub won: bool,
}

/// The money of a run.
#[derive(Debug, Clone, Copy, PartialEq, Eq, Structural)]
pub struct Purse {
    pub dollars: i64,
    /// How far the dollars may fall when something is bought.
    pub bankrupt_at: i64,
    pub interest_cap: i64,
    pub interest_amount: i64,
    pub discount_percent: i64,
    pub pending_cashout: i64,
}

/// The round that is on.
#[derive(Debug, Clone, Copy, PartialEq, Eq)]
pub struct Round {
    /// What was scored against the blind.
    pub chips: Double,
    pub hands_left: i64,
    pub discards_left: i64,
    pub hand_size: i64,
    /// Hand size that goes at the end of the round.
    pub temp_handsize: Option<i64>,
    pub hands_played: i64,
    pub discards_used: i64,
    /// The blind of the round.
    pub active_blind: Option<ActiveBlind>,
    /// The card that must be chosen, by its number.
    pub forced_card: Option<u32>,
}

/// What a round starts with, and how much finds room.
#[derive(Debug, Clone, Copy, PartialEq, Eq, Structural)]
pub struct Limits {
    pub hands: i64,
    pub discards: i64,
    pub joker_slots: usize,
    pub consumable_slots: usize,
    pub shop_joker_max: usize,
}

/// The cost of a reroll in the shop.
#[derive(Debug, Clone, Copy, PartialEq, Eq, Structural)]
pub struct Reroll {
    pub base_cost: i64,
    pub cost: i64,
    pub increase: i64,
    /// Takes the place of the base cost for a shop.
    pub temp_cost: Option<i64>,
    pub free: i64,
}

/// How often things come up.
#[derive(Debug, Clone, Copy, PartialEq, Eq, Structural)]
pub struct Rates {
    pub edition: Double,
    pub joker: Double,
    pub tarot: Double,
    pub planet: Double,
    pub playing_card: Double,
    pub spectral: Double,
    /// 1, doubled by each Oops! All 6s.
    pub prob_normal: Double,
}

/// What happened in a run so far.
#[derive(Debug, Clone, Copy, PartialEq, Eq)]
pub struct Record {
    pub hands: HandsTable,
    pub most_played_hand: HandType,
    pub last_hand_played: Option<HandType>,
    /// Discards left over, in all rounds together.
    pub unused_discards: i64,
    pub hands_played_total: i64,
    pub skips: i64,
    pub tarots_used: i64,
    pub last_tarot_planet: Option<Key>,
    /// What the next Ectoplasm takes off the hand size.
    pub ecto_minus: i64,
}

/// What jokers look for in a round.
#[derive(Debug, Clone, Copy, PartialEq, Eq)]
pub struct Marks {
    pub mail_card_id: u8,
    pub idol_card: (u8, Suit),
    pub ancient_suit: Option<Suit>,
    pub castle_suit: Suit,
}

/// What comes up next, and what tags did to the shop.
#[derive(Debug, Clone, Copy, PartialEq, Eq)]
pub struct Offers {
    /// Takes the place of every tag that would be drawn.
    pub forced_tag: Option<Key>,
    pub current_voucher: Option<Key>,
    pub blind_tag_small: Key,
    pub blind_tag_big: Key,
    /// The first pack of the run was laid out.
    pub first_shop_buffoon: bool,
    /// A Coupon Tag acted in this shop.
    pub shop_free: bool,
    /// A D6 Tag acted in this shop.
    pub shop_d6ed: bool,
}

/// The numbers given out.
#[derive(Debug, Clone, Copy, PartialEq, Eq, Structural)]
pub struct Counters {
    /// The number of the card made last.
    pub sort_id: u32,
    pub playing_card: u32,
}

/// The hands that Orbital Tags of an ante would raise.
#[derive(Debug, Clone, Copy, PartialEq, Eq, Structural)]
pub struct OrbitalHands {
    pub small: Option<HandType>,
    pub big: Option<HandType>,
    pub boss: Option<HandType>,
}

/// A run.
#[derive(Debug, Clone)]
pub struct Run {
    pub rng: RngState,
    pub deck: Vec<Card>,
    pub hand: Vec<Card>,
    pub discard_pile: Vec<Card>,
    /// Cards that are gone for good.
    pub destroyed_cards: Vec<Card>,
    pub jokers: Vec<OwnedJoker>,
    pub consumables: Vec<OwnedConsumable>,
    /// How many of each thing are about.
    pub used_keys: KeyMap<u32>,
    pub used_vouchers: KeyMap<()>,
    pub pool_flags: KeyMap<()>,
    /// How often each boss came.
    pub bosses_used: KeyMap<i64>,
    /// How often each consumable was used.
    pub consumable_usage: KeyMap<u32>,
    pub shop: Option<ShopState>,
    pub pack: Option<PackState>,
    pub tags: Vec<RunTag>,
    pub orbital_choices: Vec<(i64, OrbitalHands)>,
    pub last_play: Option<PlayResult>,
    pub state: State,
    pub track: Track,
    pub purse: Purse,
    pub round: Round,
    pub limits: Limits,
    pub reroll: Reroll,
    pub rates: Rates,
    pub record: Record,
    pub marks: Marks,
    pub offers: Offers,
    pub counters: Counters,
}

/// A run as the functions on it are stated over.
pub struct RunModel {
    pub s: Streams,
    pub deck: Seq<Card>,
    pub hand: Seq<Card>,
    pub discard_pile: Seq<Card>,
    pub destroyed_cards: Seq<Card>,
    pub jokers: Seq<OwnedJoker>,
    pub consumables: Seq<OwnedConsumable>,
    pub used_keys: Map<Seq<char>, u32>,
    pub used_vouchers: Map<Seq<char>, ()>,
    pub pool_flags: Map<Seq<char>, ()>,
    pub bosses_used: Map<Seq<char>, i64>,
    pub consumable_usage: Map<Seq<char>, u32>,
    pub shop: Option<ShopModel>,
    pub pack: Option<PackModel>,
    pub tags: Seq<RunTag>,
    pub orbital_choices: Seq<(i64, OrbitalHands)>,
    pub last_play: Option<PlayModel>,
    pub state: State,
    pub track: Track,
    pub purse: Purse,
    pub round: Round,
    pub limits: Limits,
    pub reroll: Reroll,
    pub rates: Rates,
    pub record: Record,
    pub marks: Marks,
    pub offers: Offers,
    pub counters: Counters,
}

pub open spec fn shop_view(s: Option<ShopState>) -> Option<ShopModel> {
    match s {
        Some(x) => Some(x@),
        None => None,
    }
}

pub open spec fn pack_view(p: Option<PackState>) -> Option<PackModel> {
    match p {
        Some(x) => Some(x@),
        None => None,
    }
}

pub open spec fn play_view(p: Option<PlayResult>) -> Option<PlayModel> {
    match p {
        Some(x) => Some(x@),
        None => None,
    }
}

impl View for Run {
    type V = RunModel;

    open spec fn view(&self) -> RunModel {
        RunModel {
            s: self.rng@,
            deck: self.deck@,
            hand: self.hand@,
            discard_pile: self.discard_pile@,
            destroyed_cards: self.destroyed_cards@,
            jokers: self.jokers@,
            consumables: self.consumables@,
            used_keys: self.used_keys@,
            used_vouchers: self.used_vouchers@,
            pool_flags: self.pool_flags@,
            bosses_used: self.bosses_used@,
            consumable_usage: self.consumable_usage@,
            shop: shop_view(self.shop),
            pack: pack_view(self.pack),
            tags: self.tags@,
            orbital_choices: self.orbital_choices@,
            last_play: play_view(self.last_play),
            state: self.state,
            track: self.track,
            purse: self.purse,
            round: self.round,
            limits: self.limits,
            reroll: self.reroll,
            rates: self.rates,
            record: self.record,
            marks: self.marks,
            offers: self.offers,
            counters: self.counters,
        }
    }
}

/// What came of an action: the run after it, and the reason if it was refused.
pub struct Turn {
    pub run: RunModel,
    pub refusal: Option<Refusal>,
}

impl Turn {
    pub open spec fn done(run: RunModel) -> Turn {
        Turn { run, refusal: None }
    }

    pub open spec fn refused(run: RunModel, why: Refusal) -> Turn {
        Turn { run, refusal: Some(why) }
    }

    /// Whether a result tells of this turn.
    pub open spec fn tells(self, r: Result<(), RunError>) -> bool {
        match r {
            Ok(_) => self.refusal is None,
            Err(e) => self.refusal == Some(e@),
        }
    }
}

impl RunModel {
    /// The run after a payment.
    pub open spec fn paid(self, n: i64) -> RunModel {
        RunModel {
            purse: Purse { dollars: self.purse.dollars.wrapping_add(n), ..self.purse },
            ..self
        }
    }

    /// The run after a cost.
    pub open spec fn charged(self, n: i64) -> RunModel {
        RunModel {
            purse: Purse { dollars: self.purse.dollars.wrapping_sub(n), ..self.purse },
            ..self
        }
    }
}

impl Run {
    /// What the run waits for.
    pub fn state(&self) -> (r: State)
        ensures
            r == self@.state,
    {
        self.state
    }

    /// The hand, in order. Cards that are face down show their faces here.
    pub fn hand(&self) -> (r: &[Card])
        ensures
            r@ == self@.hand,
    {
        self.hand.as_slice()
    }

    pub fn deck_len(&self) -> (r: usize)
        ensures
            r == self@.deck.len(),
    {
        self.deck.len()
    }

    /// The cards that are not drawn yet; the last is drawn first.
    pub fn deck_cards(&self) -> (r: &[Card])
        ensures
            r@ == self@.deck,
    {
        self.deck.as_slice()
    }

    /// The cards that come back at the end of the round.
    pub fn discard_cards(&self) -> (r: &[Card])
        ensures
            r@ == self@.discard_pile,
    {
        self.discard_pile.as_slice()
    }

    pub fn discard_pile_len(&self) -> (r: usize)
        ensures
            r == self@.discard_pile.len(),
    {
        self.discard_pile.len()
    }

    /// The cards that are gone for good.
    pub fn destroyed_cards(&self) -> (r: &[Card])
        ensures
            r@ == self@.destroyed_cards,
    {
        self.destroyed_cards.as_slice()
    }

    /// The ante.
    pub fn ante(&self) -> (r: i64)
        ensures
            r == self@.track.ante,
    {
        self.track.ante
    }

    /// How many rounds were begun.
    pub fn round(&self) -> (r: i64)
        ensures
            r == self@.track.round,
    {
        self.track.round
    }

    /// The dollars held.
    pub fn dollars(&self) -> (r: i64)
        ensures
            r == self@.purse.dollars,
    {
        self.purse.dollars
    }

    /// What was scored against the blind.
    pub fn chips(&self) -> (r: Double)
        ensures
            r == self@.round.chips,
    {
        self.round.chips
    }

    /// The hands left in the round.
    pub fn hands_left(&self) -> (r: i64)
        ensures
            r == self@.round.hands_left,
    {
        self.round.hands_left
    }

    /// The discards left in the round.
    pub fn discards_left(&self) -> (r: i64)
        ensures
            r == self@.round.discards_left,
    {
        self.round.discards_left
    }

    /// How many cards the hand holds.
    pub fn hand_size(&self) -> (r: i64)
        ensures
            r == self@.round.hand_size,
    {
        self.round.hand_size
    }

    /// The blind that is next, or on.
    pub fn blind_on_deck(&self) -> (r: BlindStage)
        ensures
            r == self@.track.blind_on_deck,
    {
        self.track.blind_on_deck
    }

    /// The blind of the round, as the registry has it; none between rounds.
    pub fn current_blind(&self) -> (r: Option<BlindProto>)
        ensures
            r == match self@.round.active_blind {
                Some(b) => Some(b.proto),
                None => None,
            },
    {
        match self.round.active_blind {
            Some(b) => Some(b.proto),
            None => None,
        }
    }

    /// The blind of the round; none between rounds.
    pub fn active_blind(&self) -> (r: Option<&ActiveBlind>)
        ensures
            match r {
                Some(b) => self@.round.active_blind == Some(*b),
                None => self@.round.active_blind is None,
            },
    {
        match &self.round.active_blind {
            Some(b) => Some(b),
            None => None,
        }
    }

    /// The boss of the ante.
    pub fn boss_choice(&self) -> (r: &'static str)
        ensures
            r == self@.track.boss_choice,
    {
        self.track.boss_choice
    }

    /// The hand that the Ox punishes.
    pub fn most_played_hand(&self) -> (r: HandType)
        ensures
            r == self@.record.most_played_hand,
    {
        self.record.most_played_hand
    }

    /// The hand played last.
    pub fn last_hand_played(&self) -> (r: Option<HandType>)
        ensures
            r == self@.record.last_hand_played,
    {
        self.record.last_hand_played
    }

    /// The keys of the consumables held.
    pub fn pending_consumables(&self) -> (r: Vec<String>)
        ensures
            r@.len() == self@.consumables.len(),
            forall|i: int|
                0 <= i < r@.len() ==> (#[trigger] r@[i])@ == self@.consumables[i].key@,
    {
        let mut keys: Vec<String> = Vec::new();
        let mut i: usize = 0;
        while i < self.consumables.len()
            invariant
                i <= self.consumables.len(),
                keys@.len() == i,
                forall|k: int| 0 <= k < i ==> (#[trigger] keys@[k])@ == self@.consumables[k].key@,
            decreases self.consumables.len() - i,
        {
            keys.push(self.consumables[i].key.to_owned());
            i = i + 1;
        }
        keys
    }

    /// The consumables held.
    pub fn consumables(&self) -> (r: &[OwnedConsumable])
        ensures
            r@ == self@.consumables,
    {
        self.consumables.as_slice()
    }

    /// The jokers, in order.
    pub fn jokers(&self) -> (r: &[OwnedJoker])
        ensures
            r@ == self@.jokers,
    {
        self.jokers.as_slice()
    }

    /// How many jokers find room.
    pub fn joker_slots(&self) -> (r: usize)
        ensures
            r == self@.limits.joker_slots,
    {
        self.limits.joker_slots
    }

    /// How many consumables find room.
    pub fn consumable_slots(&self) -> (r: usize)
        ensures
            r == self@.limits.consumable_slots,
    {
        self.limits.consumable_slots
    }

    /// The open shop.
    pub fn shop(&self) -> (r: Option<&ShopState>)
        ensures
            match r {
                Some(x) => self@.shop == Some(x@),
                None => self@.shop is None,
            },
    {
        match &self.shop {
            Some(x) => Some(x),
            None => None,
        }
    }

    /// The open pack.
    pub fn pack(&self) -> (r: Option<&PackState>)
        ensures
            match r {
                Some(x) => self@.pack == Some(x@),
                None => self@.pack is None,
            },
    {
        match &self.pack {
            Some(x) => Some(x),
            None => None,
        }
    }

    /// What came of the last hand.
    pub fn last_play(&self) -> (r: Option<&PlayResult>)
        ensures
            match r {
                Some(x) => self@.last_play == Some(x@),
                None => self@.last_play is None,
            },
    {
        match &self.last_play {
            Some(x) => Some(x),
            None => None,
        }
    }

    /// What a reroll of the shop costs.
    pub fn reroll_cost(&self) -> (r: i64)
        ensures
            r == self@.reroll.cost,
    {
        self.reroll.cost
    }

    /// The vouchers that were redeemed.
    pub fn used_vouchers(&self) -> (r: &KeyMap<()>)
        ensures
            r@ == self@.used_vouchers,
    {
        &self.used_vouchers
    }

    /// The tags held.
    pub fn tags(&self) -> (r: &[RunTag])
        ensures
            r@ == self@.tags,
    {
        self.tags.as_slice()
    }

    /// The tags for skipping the Small and the Big Blind.
    pub fn blind_tags(&self) -> (r: (&'static str, &'static str))
        ensures
            r == (self@.offers.blind_tag_small, self@.offers.blind_tag_big),
    {
        (self.offers.blind_tag_small, self.offers.blind_tag_big)
    }

    /// The voucher of the ante, until it is redeemed.
    pub fn current_voucher(&self) -> (r: Option<&'static str>)
        ensures
            r == self@.offers.current_voucher,
    {
        self.offers.current_voucher
    }

    /// The ante that blinds are sized by.
    pub fn blind_ante(&self) -> (r: i64)
        ensures
            r == self@.track.blind_ante,
    {
        self.track.blind_ante
    }

    /// How many blinds were skipped.
    pub fn skips(&self) -> (r: i64)
        ensures
            r == self@.record.skips,
    {
        self.record.skips
    }

    /// What the round pays when it is cashed out.
    pub fn pending_cashout(&self) -> (r: i64)
        ensures
            r == self@.purse.pending_cashout,
    {
        self.purse.pending_cashout
    }

    /// The poker hands with their levels and plays.
    pub fn hands_table(&self) -> (r: &HandsTable)
        ensures
            *r == self@.record.hands,
    {
        &self.record.hands
    }

    /// How far the dollars may fall when something is bought.
    pub fn bankrupt_at(&self) -> (r: i64)
        ensures
            r == self@.purse.bankrupt_at,
    {
        self.purse.bankrupt_at
    }

    /// How many Tarot cards were used.
    pub fn tarots_used(&self) -> (r: i64)
        ensures
            r == self@.record.tarots_used,
    {
        self.record.tarots_used
    }

    /// The rank that Mail-In Rebate pays for.
    pub fn mail_rank_id(&self) -> (r: u8)
        ensures
            r == self@.marks.mail_card_id,
    {
        self.marks.mail_card_id
    }

    /// The card that the Idol looks for.
    pub fn idol_card(&self) -> (r: (u8, Suit))
        ensures
            r == self@.marks.idol_card,
    {
        self.marks.idol_card
    }

    /// The suit that the Ancient Joker looks for.
    pub fn ancient_suit(&self) -> (r: Option<Suit>)
        ensures
            r == self@.marks.ancient_suit,
    {
        self.marks.ancient_suit
    }

    /// The suit that the Castle looks for.
    pub fn castle_suit(&self) -> (r: Suit)
        ensures
            r == self@.marks.castle_suit,
    {
        self.marks.castle_suit
    }

    /// How many hands were played in the round.
    pub fn hands_played_this_round(&self) -> (r: i64)
        ensures
            r == self@.round.hands_played,
    {
        self.round.hands_played
    }

    /// How many discards were used in the round.
    pub fn discards_used_this_round(&self) -> (r: i64)
        ensures
            r == self@.round.discards_used,
    {
        self.round.discards_used
    }

    /// Whether the Small Blind of the ante was defeated.
    pub fn small_defeated(&self) -> (r: bool)
        ensures
            r == self@.track.small_defeated,
    {
        self.track.small_defeated
    }

    /// Whether the Big Blind of the ante was defeated.
    pub fn big_defeated(&self) -> (r: bool)
        ensures
            r == self@.track.big_defeated,
    {
        self.track.big_defeated
    }

    /// Whether the Small Blind of the ante was skipped.
    pub fn small_skipped(&self) -> (r: bool)
        ensures
            r == self@.track.small_skipped,
    {
        self.track.small_skipped
    }

    /// Whether the Big Blind of the ante was skipped.
    pub fn big_skipped(&self) -> (r: bool)
        ensures
            r == self@.track.big_skipped,
    {
        self.track.big_skipped
    }

    /// Whether the boss of the last ante was beaten.
    pub fn won(&self) -> (r: bool)
        ensures
            r == self@.track.won,
    {
        self.track.won
    }

    /// The seed of the run.
    pub fn seed(&self) -> (r: &str)
        ensures
            r@ == self@.s.seed,
    {
        self.rng.seed()
    }
}

} // verus!
