//! Playing cards: identity, suit matching, sort keys and chip values.
use crate::double::Double;
use vstd::prelude::*;

verus! {

/// The four suits, in the order in which a flush is looked for.
#[derive(Debug, Clone, Copy, PartialEq, Eq, Hash, PartialOrd, Ord, Structural)]
pub enum Suit {
    Spades,
    Hearts,
    Clubs,
    Diamonds,
}

/// Red suits are Hearts and Diamonds.
pub open spec fn is_red(s: Suit) -> bool {
    s == Suit::Hearts || s == Suit::Diamonds
}

impl Suit {
    pub const ALL: [Suit; 4] = [Suit::Spades, Suit::Hearts, Suit::Clubs, Suit::Diamonds];

    pub open spec fn letter(self) -> char {
        match self {
            Suit::Spades => 'S',
            Suit::Hearts => 'H',
            Suit::Clubs => 'C',
            Suit::Diamonds => 'D',
        }
    }

    /// The letter that starts a card key such as "H_A".
    pub fn key(self) -> (r: char)
        ensures
            r == self.letter(),
    {
        match self {
            Suit::Spades => 'S',
            Suit::Hearts => 'H',
            Suit::Clubs => 'C',
            Suit::Diamonds => 'D',
        }
    }

    /// Diamonds, Clubs, Hearts, Spades: 1 to 4.
    pub open spec fn weight(self) -> nat {
        match self {
            Suit::Diamonds => 1,
            Suit::Clubs => 2,
            Suit::Hearts => 3,
            Suit::Spades => 4,
        }
    }

    fn weight_number(self) -> (r: u64)
        ensures
            r == self.weight(),
    {
        match self {
            Suit::Diamonds => 1,
            Suit::Clubs => 2,
            Suit::Hearts => 3,
            Suit::Spades => 4,
        }
    }

    /// The suit's share of the sort key: 0.01 to 0.04.
    pub fn suit_nominal(self) -> (r: Double)
        ensures
            r == Double::frac(self.weight(), 100),
    {
        Double::lit(self.weight_number(), 100)
    }

    /// The share of the suit the card was made with: 0.001 to 0.004.
    pub fn suit_nominal_original(self) -> (r: Double)
        ensures
            r == Double::frac(self.weight(), 1000),
    {
        Double::lit(self.weight_number(), 1000)
    }
}

/// A rank by its number: 2 to 10, Jack 11, Queen 12, King 13, Ace 14.
#[derive(Debug, Clone, Copy, PartialEq, Eq, Hash, PartialOrd, Ord, Structural)]
pub struct Rank(pub u8);

impl Rank {
    /// The Ace.
    pub fn ace() -> (r: Rank)
        ensures
            r == Rank(14),
    {
        Rank(14)
    }

    pub fn id(self) -> (r: u8)
        ensures
            r == self.0,
    {
        self.0
    }

    /// The chip value: an Ace 11, a face card 10, the others their number.
    pub open spec fn chips(self) -> nat {
        if self.0 == 14 {
            11
        } else if 11 <= self.0 <= 13 {
            10
        } else {
            self.0 as nat
        }
    }

    pub fn nominal(self) -> (r: u32)
        ensures
            r == self.chips(),
    {
        if self.0 == 14 {
            11
        } else if 11 <= self.0 && self.0 <= 13 {
            10
        } else {
            self.0 as u32
        }
    }

    /// Jack, Queen or King.
    pub open spec fn face(self) -> bool {
        11 <= self.0 <= 13
    }

    pub fn is_face(self) -> (r: bool)
        ensures
            r == self.face(),
    {
        11 <= self.0 && self.0 <= 13
    }

    /// 1 to 4 for Jack to Ace, 0 for the numbered ranks.
    pub open spec fn face_weight(self) -> nat {
        if 11 <= self.0 <= 14 {
            (self.0 - 10) as nat
        } else {
            0
        }
    }

    /// The rank's share of the sort key among cards of one chip value:
    /// 0.1 to 0.4 for Jack to Ace.
    pub fn face_nominal(self) -> (r: Double)
        ensures
            r == Double::frac(self.face_weight(), 10),
    {
        let w: u64 = if 11 <= self.0 && self.0 <= 14 {
            (self.0 - 10) as u64
        } else {
            0
        };
        Double::lit(w, 10)
    }

    pub open spec fn letter(self) -> char {
        if self.0 == 14 {
            'A'
        } else if self.0 == 13 {
            'K'
        } else if self.0 == 12 {
            'Q'
        } else if self.0 == 11 {
            'J'
        } else if self.0 == 10 {
            'T'
        } else {
            (48 + self.0) as char
        }
    }

    /// The character that ends a card key such as "H_A" or "D_2".
    pub fn key(self) -> (r: char)
        requires
            self.0 <= 207,
        ensures
            r == self.letter(),
    {
        if self.0 == 14 {
            'A'
        } else if self.0 == 13 {
            'K'
        } else if self.0 == 12 {
            'Q'
        } else if self.0 == 11 {
            'J'
        } else if self.0 == 10 {
            'T'
        } else {
            (48 + self.0) as char
        }
    }
}

#[derive(Debug, Clone, Copy, PartialEq, Eq, Default, Structural)]
pub enum Enhancement {
    #[default]
    Plain,
    Bonus,
    Mult,
    Wild,
    Glass,
    Steel,
    Stone,
    Gold,
    Lucky,
}

#[derive(Debug, Clone, Copy, PartialEq, Eq, Default, Structural)]
pub enum Edition {
    #[default]
    Plain,
    Foil,
    Holo,
    Polychrome,
    Negative,
}

#[derive(Debug, Clone, Copy, PartialEq, Eq, Default, Structural)]
pub enum Seal {
    #[default]
    Plain,
    Gold,
    Red,
    Blue,
    Purple,
}

/// A playing card. `sort_id` numbers the cards of a run in creation order.
#[derive(Debug, Clone, Copy, PartialEq, Eq, Structural)]
pub struct Card {
    pub rank: Rank,
    pub suit: Suit,
    pub enhancement: Enhancement,
    pub edition: Edition,
    pub seal: Seal,
    pub sort_id: u32,
    /// Switched off by the current blind.
    pub debuff: bool,
    /// Face down in hand; says nothing of how the card plays or scores.
    pub face_down: bool,
    /// Played since the last boss was beaten.
    pub played_this_ante: bool,
    /// Chips that were added for good.
    pub perma_bonus: i64,
}

/// A plain card without enhancement, edition or seal.
pub open spec fn plain_card(rank: Rank, suit: Suit, sort_id: u32) -> Card {
    Card {
        rank,
        suit,
        enhancement: Enhancement::Plain,
        edition: Edition::Plain,
        seal: Seal::Plain,
        sort_id,
        debuff: false,
        face_down: false,
        played_this_ante: false,
        perma_bonus: 0,
    }
}

impl Card {
    pub fn new(rank: Rank, suit: Suit, sort_id: u32) -> (r: Self)
        ensures
            r == plain_card(rank, suit, sort_id),
    {
        Card {
            rank,
            suit,
            enhancement: Enhancement::Plain,
            edition: Edition::Plain,
            seal: Seal::Plain,
            sort_id,
            debuff: false,
            face_down: false,
            played_this_ante: false,
            perma_bonus: 0,
        }
    }

    /// The rank number by which a hand is evaluated; a Stone card has none.
    pub open spec fn eval_id(self) -> Option<u8> {
        if self.enhancement == Enhancement::Stone {
            None
        } else {
            Some(self.rank.0)
        }
    }

    pub fn id_for_eval(&self) -> (r: Option<u8>)
        ensures
            r == self.eval_id(),
    {
        if self.enhancement == Enhancement::Stone {
            None
        } else {
            Some(self.rank.id())
        }
    }

    /// The printed suit is `suit`, or of its colour where colours are smeared
    /// together.
    pub open spec fn natural_suit(self, suit: Suit, smeared: bool) -> bool {
        self.suit == suit || (smeared && is_red(self.suit) == is_red(suit))
    }

    fn natural(&self, suit: Suit, smeared: bool) -> (r: bool)
        ensures
            r == self.natural_suit(suit, smeared),
    {
        let a = self.suit == Suit::Hearts || self.suit == Suit::Diamonds;
        let b = suit == Suit::Hearts || suit == Suit::Diamonds;
        (smeared && a == b) || self.suit == suit
    }

    /// The suit test of flushes: a debuffed card keeps its natural suit and a
    /// Wild card matches everything unless debuffed.
    pub open spec fn suits_flush(self, suit: Suit, smeared: bool) -> bool {
        if self.enhancement == Enhancement::Stone {
            false
        } else if self.enhancement == Enhancement::Wild && !self.debuff {
            true
        } else {
            self.natural_suit(suit, smeared)
        }
    }

    pub fn is_suit(&self, suit: Suit, smeared: bool) -> (r: bool)
        ensures
            r == self.suits_flush(suit, smeared),
    {
        if self.enhancement == Enhancement::Stone {
            false
        } else if self.enhancement == Enhancement::Wild && !self.debuff {
            true
        } else {
            self.natural(suit, smeared)
        }
    }

    /// The suit test without regard to debuffs: Stone never, Wild always.
    pub open spec fn suits_any(self, suit: Suit, smeared: bool) -> bool {
        if self.enhancement == Enhancement::Stone {
            false
        } else if self.enhancement == Enhancement::Wild {
            true
        } else {
            self.natural_suit(suit, smeared)
        }
    }

    /// The suit test of single cards: a debuffed card matches nothing.
    pub open spec fn suits_normal(self, suit: Suit, smeared: bool) -> bool {
        !self.debuff && self.suits_any(suit, smeared)
    }

    pub fn is_suit_normal(&self, suit: Suit, smeared: bool) -> (r: bool)
        ensures
            r == self.suits_normal(suit, smeared),
    {
        if self.debuff {
            return false;
        }
        self.is_suit_bypass_debuff(suit, smeared)
    }

    pub fn is_suit_bypass_debuff(&self, suit: Suit, smeared: bool) -> (r: bool)
        ensures
            r == self.suits_any(suit, smeared),
    {
        if self.enhancement == Enhancement::Stone {
            false
        } else if self.enhancement == Enhancement::Wild {
            true
        } else {
            self.natural(suit, smeared)
        }
    }

    /// Whether a boss takes the card for a face card; with Pareidolia every
    /// card is one, a Stone card too.
    pub open spec fn boss_face(self, pareidolia: bool) -> bool {
        (self.enhancement != Enhancement::Stone && self.rank.face()) || pareidolia
    }

    pub fn is_face_from_boss(&self, pareidolia: bool) -> (r: bool)
        ensures
            r == self.boss_face(pareidolia),
    {
        (self.enhancement != Enhancement::Stone && self.rank.is_face()) || pareidolia
    }

    pub fn nominal(&self) -> (r: u32)
        ensures
            r == if self.enhancement == Enhancement::Stone {
                0
            } else {
                self.rank.chips()
            },
    {
        if self.enhancement == Enhancement::Stone {
            0
        } else {
            self.rank.nominal()
        }
    }

    /// The factor of the suit in the sort key: 1, or 1000 for a sort by suit;
    /// Stone cards go to the other end.
    pub open spec fn suit_factor(self, suit_mod: bool) -> int {
        if self.enhancement == Enhancement::Stone {
            -1000
        } else if suit_mod {
            1000
        } else {
            1
        }
    }

    /// The sort key of a hand: the chip value, then the face, then the suit.
    pub open spec fn sort_key(self, suit_mod: bool) -> Double {
        let mult = Double::of(self.suit_factor(suit_mod));
        Double::of(self.rank.chips() as int).plus(Double::frac(self.suit.weight(), 100).times(mult)).plus(
            Double::frac(self.suit.weight(), 1000).times(Double::frac(1, 10_000)).times(mult),
        ).plus(Double::frac(self.rank.face_weight(), 10))
    }

    pub fn get_nominal(&self, suit_mod: bool) -> (r: Double)
        ensures
            r == self.sort_key(suit_mod),
    {
        let mut mult = Double::from_i64(1);
        if suit_mod {
            mult = Double::from_i64(1000);
        }
        if self.enhancement == Enhancement::Stone {
            mult = Double::from_i64(-1000);
        }
        Double::from_i64(self.rank.nominal() as i64).add(self.suit.suit_nominal().mul(mult)).add(
            self.suit.suit_nominal_original().mul(Double::lit(1, 10_000)).mul(mult),
        ).add(self.rank.face_nominal())
    }

    /// The chips that a scored card gives: none if debuffed, 50 for a Stone
    /// card, 30 extra for a Bonus card, and what was added for good.
    pub open spec fn chip_value(self) -> Double {
        if self.debuff {
            Double::of(0)
        } else {
            let base = if self.enhancement == Enhancement::Stone {
                Double::of(50)
            } else if self.enhancement == Enhancement::Bonus {
                Double::of(self.rank.chips() as int + 30)
            } else {
                Double::of(self.rank.chips() as int)
            };
            base.plus(Double::of(self.perma_bonus as int))
        }
    }

    pub fn chip_bonus(&self) -> (r: Double)
        ensures
            r == self.chip_value(),
    {
        if self.debuff {
            return Double::from_i64(0);
        }
        let base = if self.enhancement == Enhancement::Stone {
            Double::from_i64(50)
        } else if self.enhancement == Enhancement::Bonus {
            Double::from_i64(self.rank.nominal() as i64 + 30)
        } else {
            Double::from_i64(self.rank.nominal() as i64)
        };
        base.add(Double::from_i64(self.perma_bonus))
    }
}

impl Enhancement {
    /// The multiplier that an enhancement gives: 4 for Mult, 20 for Lucky.
    pub open spec fn mult_bonus(self) -> int {
        match self {
            Enhancement::Mult => 4,
            Enhancement::Lucky => 20,
            _ => 0,
        }
    }

    pub fn mult_value(self) -> (r: Double)
        ensures
            r == Double::of(self.mult_bonus()),
    {
        match self {
            Enhancement::Mult => Double::from_i64(4),
            Enhancement::Lucky => Double::from_i64(20),
            _ => Double::from_i64(0),
        }
    }
}

impl Edition {
    /// Chips, multiplier and factor that an edition gives when it scores.
    pub open spec fn mods(self) -> (Option<Double>, Option<Double>, Option<Double>) {
        match self {
            Edition::Foil => (Some(Double::of(50)), None, None),
            Edition::Holo => (None, Some(Double::of(10)), None),
            Edition::Polychrome => (None, None, Some(Double::frac(15, 10))),
            Edition::Negative => (None, None, None),
            Edition::Plain => (None, None, None),
        }
    }

    pub fn scoring_mods(self) -> (r: (Option<Double>, Option<Double>, Option<Double>))
        ensures
            r == self.mods(),
    {
        match self {
            Edition::Foil => (Some(Double::from_i64(50)), None, None),
            Edition::Holo => (None, Some(Double::from_i64(10)), None),
            Edition::Polychrome => (None, None, Some(Double::lit(15, 10))),
            Edition::Negative => (None, None, None),
            Edition::Plain => (None, None, None),
        }
    }
}

/// The poker hands, weakest first.
#[derive(Debug, Clone, Copy, PartialEq, Eq, Hash, PartialOrd, Ord, Structural)]
pub enum HandType {
    HighCard,
    Pair,
    TwoPair,
    ThreeOfAKind,
    Straight,
    Flush,
    FullHouse,
    FourOfAKind,
    StraightFlush,
    FiveOfAKind,
    FlushHouse,
    FlushFive,
}

/// Chips and multiplier of a hand at level 1, and what a level adds.
#[derive(Debug, Clone, Copy, PartialEq, Eq, Structural)]
pub struct HandValues {
    pub base_chips: u32,
    pub base_mult: u32,
    pub level_chips: u32,
    pub level_mult: u32,
}

pub open spec fn hand_values(c: u32, m: u32, lc: u32, lm: u32) -> HandValues {
    HandValues { base_chips: c, base_mult: m, level_chips: lc, level_mult: lm }
}

impl HandType {
    pub const ALL: [HandType; 12] = [
        HandType::HighCard,
        HandType::Pair,
        HandType::TwoPair,
        HandType::ThreeOfAKind,
        HandType::Straight,
        HandType::Flush,
        HandType::FullHouse,
        HandType::FourOfAKind,
        HandType::StraightFlush,
        HandType::FiveOfAKind,
        HandType::FlushHouse,
        HandType::FlushFive,
    ];

    /// The place of a hand in the order of strength, from 0.
    pub open spec fn place(self) -> int {
        match self {
            HandType::HighCard => 0,
            HandType::Pair => 1,
            HandType::TwoPair => 2,
            HandType::ThreeOfAKind => 3,
            HandType::Straight => 4,
            HandType::Flush => 5,
            HandType::FullHouse => 6,
            HandType::FourOfAKind => 7,
            HandType::StraightFlush => 8,
            HandType::FiveOfAKind => 9,
            HandType::FlushHouse => 10,
            HandType::FlushFive => 11,
        }
    }

    pub(crate) fn index(self) -> (r: usize)
        ensures
            r == self.place(),
            r < 12,
    {
        match self {
            HandType::HighCard => 0,
            HandType::Pair => 1,
            HandType::TwoPair => 2,
            HandType::ThreeOfAKind => 3,
            HandType::Straight => 4,
            HandType::Flush => 5,
            HandType::FullHouse => 6,
            HandType::FourOfAKind => 7,
            HandType::StraightFlush => 8,
            HandType::FiveOfAKind => 9,
            HandType::FlushHouse => 10,
            HandType::FlushFive => 11,
        }
    }

    pub open spec fn values(self) -> HandValues {
        match self {
            HandType::FlushFive => hand_values(160, 16, 50, 3),
            HandType::FlushHouse => hand_values(140, 14, 40, 4),
            HandType::FiveOfAKind => hand_values(120, 12, 35, 3),
            HandType::StraightFlush => hand_values(100, 8, 40, 4),
            HandType::FourOfAKind => hand_values(60, 7, 30, 3),
            HandType::FullHouse => hand_values(40, 4, 25, 2),
            HandType::Flush => hand_values(35, 4, 15, 2),
            HandType::Straight => hand_values(30, 4, 30, 3),
            HandType::ThreeOfAKind => hand_values(30, 3, 20, 2),
            HandType::TwoPair => hand_values(20, 2, 20, 1),
            HandType::Pair => hand_values(10, 2, 15, 1),
            HandType::HighCard => hand_values(5, 1, 10, 1),
        }
    }

    pub fn base_values(self) -> (r: HandValues)
        ensures
            r == self.values(),
    {
        let (c, m, lc, lm): (u32, u32, u32, u32) = match self {
            HandType::FlushFive => (160, 16, 50, 3),
            HandType::FlushHouse => (140, 14, 40, 4),
            HandType::FiveOfAKind => (120, 12, 35, 3),
            HandType::StraightFlush => (100, 8, 40, 4),
            HandType::FourOfAKind => (60, 7, 30, 3),
            HandType::FullHouse => (40, 4, 25, 2),
            HandType::Flush => (35, 4, 15, 2),
            HandType::Straight => (30, 4, 30, 3),
            HandType::ThreeOfAKind => (30, 3, 20, 2),
            HandType::TwoPair => (20, 2, 20, 1),
            HandType::Pair => (10, 2, 15, 1),
            HandType::HighCard => (5, 1, 10, 1),
        };
        HandValues { base_chips: c, base_mult: m, level_chips: lc, level_mult: lm }
    }
}

} // verus!
