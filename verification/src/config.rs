//! What a run is played with: a deck, a stake, and the rules they set.
use crate::cards::{Rank, Suit};
use crate::double::Double;
use vstd::prelude::*;

verus! {

/// The decks. Their order is a wire format and does not change.
#[derive(Debug, Clone, Copy, PartialEq, Eq, Hash, Default, Structural)]
pub enum Deck {
    #[default]
    Red,
    Blue,
    Yellow,
    Green,
    Black,
    Magic,
    Nebula,
    GhostDeck,
    Abandoned,
    Checkered,
    Zodiac,
    Painted,
    Anaglyph,
    Plasma,
    Erratic,
}

impl Deck {
    pub const ALL: [Deck; 15] = [
        Deck::Red,
        Deck::Blue,
        Deck::Yellow,
        Deck::Green,
        Deck::Black,
        Deck::Magic,
        Deck::Nebula,
        Deck::GhostDeck,
        Deck::Abandoned,
        Deck::Checkered,
        Deck::Zodiac,
        Deck::Painted,
        Deck::Anaglyph,
        Deck::Plasma,
        Deck::Erratic,
    ];

    pub open spec fn key_text(self) -> &'static str {
        match self {
            Deck::Red => "b_red",
            Deck::Blue => "b_blue",
            Deck::Yellow => "b_yellow",
            Deck::Green => "b_green",
            Deck::Black => "b_black",
            Deck::Magic => "b_magic",
            Deck::Nebula => "b_nebula",
            Deck::GhostDeck => "b_ghost",
            Deck::Abandoned => "b_abandoned",
            Deck::Checkered => "b_checkered",
            Deck::Zodiac => "b_zodiac",
            Deck::Painted => "b_painted",
            Deck::Anaglyph => "b_anaglyph",
            Deck::Plasma => "b_plasma",
            Deck::Erratic => "b_erratic",
        }
    }

    pub fn key(self) -> (r: &'static str)
        ensures
            r@ == self.key_text()@,
    {
        match self {
            Deck::Red => "b_red",
            Deck::Blue => "b_blue",
            Deck::Yellow => "b_yellow",
            Deck::Green => "b_green",
            Deck::Black => "b_black",
            Deck::Magic => "b_magic",
            Deck::Nebula => "b_nebula",
            Deck::GhostDeck => "b_ghost",
            Deck::Abandoned => "b_abandoned",
            Deck::Checkered => "b_checkered",
            Deck::Zodiac => "b_zodiac",
            Deck::Painted => "b_painted",
            Deck::Anaglyph => "b_anaglyph",
            Deck::Plasma => "b_plasma",
            Deck::Erratic => "b_erratic",
        }
    }

    pub open spec fn name_text(self) -> &'static str {
        match self {
            Deck::Red => "Red Deck",
            Deck::Blue => "Blue Deck",
            Deck::Yellow => "Yellow Deck",
            Deck::Green => "Green Deck",
            Deck::Black => "Black Deck",
            Deck::Magic => "Magic Deck",
            Deck::Nebula => "Nebula Deck",
            Deck::GhostDeck => "Ghost Deck",
            Deck::Abandoned => "Abandoned Deck",
            Deck::Checkered => "Checkered Deck",
            Deck::Zodiac => "Zodiac Deck",
            Deck::Painted => "Painted Deck",
            Deck::Anaglyph => "Anaglyph Deck",
            Deck::Plasma => "Plasma Deck",
            Deck::Erratic => "Erratic Deck",
        }
    }

    pub fn name(self) -> (r: &'static str)
        ensures
            r@ == self.name_text()@,
    {
        match self {
            Deck::Red => "Red Deck",
            Deck::Blue => "Blue Deck",
            Deck::Yellow => "Yellow Deck",
            Deck::Green => "Green Deck",
            Deck::Black => "Black Deck",
            Deck::Magic => "Magic Deck",
            Deck::Nebula => "Nebula Deck",
            Deck::GhostDeck => "Ghost Deck",
            Deck::Abandoned => "Abandoned Deck",
            Deck::Checkered => "Checkered Deck",
            Deck::Zodiac => "Zodiac Deck",
            Deck::Painted => "Painted Deck",
            Deck::Anaglyph => "Anaglyph Deck",
            Deck::Plasma => "Plasma Deck",
            Deck::Erratic => "Erratic Deck",
        }
    }

    pub fn from_index(i: usize) -> (r: Option<Deck>)
        ensures
            r == if i < 15 {
                Some(Deck::ALL[i as int])
            } else {
                None
            },
    {
        if i < 15 {
            Some(Deck::ALL[i])
        } else {
            None
        }
    }

    /// The vouchers that a deck starts with.
    pub open spec fn vouchers(self) -> Seq<&'static str> {
        match self {
            Deck::Magic => seq!["v_crystal_ball"],
            Deck::Nebula => seq!["v_telescope"],
            Deck::Zodiac => seq!["v_tarot_merchant", "v_planet_merchant", "v_overstock_norm"],
            _ => seq![],
        }
    }

    pub fn starting_vouchers(self) -> (r: Vec<&'static str>)
        ensures
            r@ == self.vouchers(),
    {
        match self {
            Deck::Magic => vec!["v_crystal_ball"],
            Deck::Nebula => vec!["v_telescope"],
            Deck::Zodiac => vec!["v_tarot_merchant", "v_planet_merchant", "v_overstock_norm"],
            _ => vec![],
        }
    }

    /// The consumables that a deck starts with.
    pub open spec fn consumables(self) -> Seq<&'static str> {
        match self {
            Deck::Magic => seq!["c_fool", "c_fool"],
            Deck::GhostDeck => seq!["c_hex"],
            _ => seq![],
        }
    }

    pub fn starting_consumables(self) -> (r: Vec<&'static str>)
        ensures
            r@ == self.consumables(),
    {
        match self {
            Deck::Magic => vec!["c_fool", "c_fool"],
            Deck::GhostDeck => vec!["c_hex"],
            _ => vec![],
        }
    }
}

/// The stakes, easiest first. Every rule of a stake holds for those above it.
#[derive(Debug, Clone, Copy, PartialEq, Eq, PartialOrd, Ord, Hash, Default, Structural)]
pub enum Stake {
    #[default]
    White,
    Red,
    Green,
    Black,
    Blue,
    Purple,
    Orange,
    Gold,
}

impl Stake {
    pub const ALL: [Stake; 8] = [
        Stake::White,
        Stake::Red,
        Stake::Green,
        Stake::Black,
        Stake::Blue,
        Stake::Purple,
        Stake::Orange,
        Stake::Gold,
    ];

    /// White is 1, Gold is 8.
    pub open spec fn number(self) -> int {
        match self {
            Stake::White => 1,
            Stake::Red => 2,
            Stake::Green => 3,
            Stake::Black => 4,
            Stake::Blue => 5,
            Stake::Purple => 6,
            Stake::Orange => 7,
            Stake::Gold => 8,
        }
    }

    pub fn level(self) -> (r: u8)
        ensures
            r == self.number(),
    {
        match self {
            Stake::White => 1,
            Stake::Red => 2,
            Stake::Green => 3,
            Stake::Black => 4,
            Stake::Blue => 5,
            Stake::Purple => 6,
            Stake::Orange => 7,
            Stake::Gold => 8,
        }
    }

    pub fn at_least(self, level: u8) -> (r: bool)
        ensures
            r == (self.number() >= level),
    {
        self.level() >= level
    }

    pub open spec fn key_text(self) -> &'static str {
        match self {
            Stake::White => "stake_white",
            Stake::Red => "stake_red",
            Stake::Green => "stake_green",
            Stake::Black => "stake_black",
            Stake::Blue => "stake_blue",
            Stake::Purple => "stake_purple",
            Stake::Orange => "stake_orange",
            Stake::Gold => "stake_gold",
        }
    }

    pub fn key(self) -> (r: &'static str)
        ensures
            r@ == self.key_text()@,
    {
        match self {
            Stake::White => "stake_white",
            Stake::Red => "stake_red",
            Stake::Green => "stake_green",
            Stake::Black => "stake_black",
            Stake::Blue => "stake_blue",
            Stake::Purple => "stake_purple",
            Stake::Orange => "stake_orange",
            Stake::Gold => "stake_gold",
        }
    }

    pub fn from_level(level: u8) -> (r: Option<Stake>)
        ensures
            r == if 1 <= level <= 8 {
                Some(Stake::ALL[level - 1])
            } else {
                None
            },
    {
        if 1 <= level && level <= 8 {
            Some(Stake::ALL[(level - 1) as usize])
        } else {
            None
        }
    }
}

/// Which of the three curves of blind sizes a run follows.
#[derive(Debug, Clone, Copy, PartialEq, Eq, Default, Structural)]
pub enum Scaling {
    #[default]
    One,
    Two,
    Three,
}

/// The numbers that a run starts with.
#[derive(Debug, Clone, Copy, PartialEq, Eq, Structural)]
pub struct StartingParams {
    pub dollars: i64,
    pub hand_size: i64,
    pub discards: i64,
    pub hands: i64,
    pub reroll_cost: i64,
    pub joker_slots: usize,
    pub consumable_slots: usize,
    /// Multiplies the chips that every blind asks for.
    pub ante_scaling: Double,
    /// Leave Jacks, Queens and Kings out of the deck.
    pub no_faces: bool,
    /// Draw every card of the deck at random.
    pub erratic_suits_and_ranks: bool,
}

/// The parameters before any deck or stake.
pub open spec fn base_params() -> StartingParams {
    StartingParams {
        dollars: 4,
        hand_size: 8,
        discards: 3,
        hands: 4,
        reroll_cost: 5,
        joker_slots: 5,
        consumable_slots: 2,
        ante_scaling: Double::of(1),
        no_faces: false,
        erratic_suits_and_ranks: false,
    }
}

impl Default for StartingParams {
    fn default() -> (r: Self)
        ensures
            r == base_params(),
    {
        StartingParams {
            dollars: 4,
            hand_size: 8,
            discards: 3,
            hands: 4,
            reroll_cost: 5,
            joker_slots: 5,
            consumable_slots: 2,
            ante_scaling: Double::from_i64(1),
            no_faces: false,
            erratic_suits_and_ranks: false,
        }
    }
}

/// The rules that decks and stakes change.
#[derive(Debug, Clone, Copy, PartialEq)]
pub struct Modifiers {
    /// Blinds that pay nothing: Small, Big, Boss.
    pub no_blind_reward: [bool; 3],
    pub scaling: Scaling,
    pub enable_eternals_in_shop: bool,
    pub enable_perishables_in_shop: bool,
    pub enable_rentals_in_shop: bool,
    /// No interest at cash out.
    pub no_interest: bool,
    /// Dollars for each hand left at cash out.
    pub money_per_hand: i64,
    /// Dollars for each discard left at cash out.
    pub money_per_discard: i64,
    /// Weight of Spectral cards in the shop.
    pub spectral_rate: Double,
    /// A Double Tag after every boss.
    pub anaglyph_double_tag: bool,
    /// Chips and multiplier are averaged before they are multiplied.
    pub plasma_balance: bool,
    /// Clubs become Spades and Diamonds become Hearts.
    pub checkered_suits: bool,
}

/// What a run is played with.
#[derive(Debug, Clone, Copy, PartialEq, Eq, Structural)]
pub struct RunConfig {
    pub deck: Deck,
    pub stake: Stake,
    /// The ante whose boss wins the run.
    pub win_ante: i64,
    /// Go on past the winning ante.
    pub endless: bool,
}

impl Default for RunConfig {
    fn default() -> (r: Self)
        ensures
            r == (RunConfig { deck: Deck::Red, stake: Stake::White, win_ante: 8, endless: false }),
    {
        RunConfig { deck: Deck::Red, stake: Stake::White, win_ante: 8, endless: false }
    }
}

impl RunConfig {
    pub fn new(deck: Deck, stake: Stake) -> (r: Self)
        ensures
            r == (RunConfig { deck, stake, win_ante: 8, endless: false }),
    {
        RunConfig { deck, stake, win_ante: 8, endless: false }
    }

    /// The starting numbers: the base, less a discard from Blue Stake on, and
    /// the deck's own change.
    pub open spec fn params(self) -> StartingParams {
        let d = self.deck;
        StartingParams {
            dollars: if d == Deck::Yellow {
                14
            } else {
                4
            },
            hand_size: if d == Deck::Painted {
                10
            } else {
                8
            },
            discards: (3 - (if self.stake.number() >= 5 {
                1int
            } else {
                0
            }) + (if d == Deck::Red {
                1int
            } else {
                0
            })) as i64,
            hands: if d == Deck::Blue {
                5
            } else if d == Deck::Black {
                3
            } else {
                4
            },
            reroll_cost: 5,
            joker_slots: if d == Deck::Black {
                6
            } else if d == Deck::Painted {
                4
            } else {
                5
            },
            consumable_slots: if d == Deck::Nebula {
                1
            } else {
                2
            },
            ante_scaling: if d == Deck::Plasma {
                Double::of(2)
            } else {
                Double::of(1)
            },
            no_faces: d == Deck::Abandoned,
            erratic_suits_and_ranks: d == Deck::Erratic,
        }
    }

    /// The blind curve: assigned by stake, never accumulated.
    pub open spec fn curve(self) -> Scaling {
        if self.stake.number() >= 6 {
            Scaling::Three
        } else if self.stake.number() >= 3 {
            Scaling::Two
        } else {
            Scaling::One
        }
    }

    /// The rules: those of every stake up to the run's, and the deck's own.
    pub open spec fn modifiers(self) -> Modifiers {
        let d = self.deck;
        Modifiers {
            no_blind_reward: [self.stake.number() >= 2, false, false],
            scaling: self.curve(),
            enable_eternals_in_shop: self.stake.number() >= 4,
            enable_perishables_in_shop: self.stake.number() >= 7,
            enable_rentals_in_shop: self.stake.number() >= 8,
            no_interest: d == Deck::Green,
            money_per_hand: if d == Deck::Green {
                2
            } else {
                1
            },
            money_per_discard: if d == Deck::Green {
                1
            } else {
                0
            },
            spectral_rate: if d == Deck::GhostDeck {
                Double::of(2)
            } else {
                Double::of(0)
            },
            anaglyph_double_tag: d == Deck::Anaglyph,
            plasma_balance: d == Deck::Plasma,
            checkered_suits: d == Deck::Checkered,
        }
    }

    /// The numbers and rules of a run: the stake first, then the deck.
    pub fn resolve(&self) -> (r: (StartingParams, Modifiers))
        ensures
            r.0 == self.params(),
            r.1 == self.modifiers(),
    {
        let mut p = StartingParams::default();
        let mut scaling = Scaling::One;
        if self.stake.at_least(3) {
            scaling = Scaling::Two;
        }
        if self.stake.at_least(5) {
            p.discards = p.discards - 1;
        }
        if self.stake.at_least(6) {
            scaling = Scaling::Three;
        }
        let mut m = Modifiers {
            no_blind_reward: [self.stake.at_least(2), false, false],
            scaling,
            enable_eternals_in_shop: self.stake.at_least(4),
            enable_perishables_in_shop: self.stake.at_least(7),
            enable_rentals_in_shop: self.stake.at_least(8),
            no_interest: false,
            money_per_hand: 1,
            money_per_discard: 0,
            spectral_rate: Double::from_i64(0),
            anaglyph_double_tag: false,
            plasma_balance: false,
            checkered_suits: false,
        };
        match self.deck {
            Deck::Red => {
                p.discards = p.discards + 1;
            },
            Deck::Blue => {
                p.hands = p.hands + 1;
            },
            Deck::Yellow => {
                p.dollars = p.dollars + 10;
            },
            Deck::Green => {
                m.no_interest = true;
                m.money_per_hand = 2;
                m.money_per_discard = 1;
            },
            Deck::Black => {
                p.hands = p.hands - 1;
                p.joker_slots = p.joker_slots + 1;
            },
            Deck::Magic => {},
            Deck::Nebula => {
                p.consumable_slots = p.consumable_slots - 1;
            },
            Deck::GhostDeck => {
                m.spectral_rate = Double::from_i64(2);
            },
            Deck::Abandoned => {
                p.no_faces = true;
            },
            Deck::Checkered => {
                m.checkered_suits = true;
            },
            Deck::Zodiac => {},
            Deck::Painted => {
                p.hand_size = p.hand_size + 2;
                p.joker_slots = p.joker_slots - 1;
            },
            Deck::Anaglyph => {
                m.anaglyph_double_tag = true;
            },
            Deck::Plasma => {
                p.ante_scaling = Double::from_i64(2);
                m.plasma_balance = true;
            },
            Deck::Erratic => {
                p.erratic_suits_and_ranks = true;
            },
        }
        assert(m.no_blind_reward == self.modifiers().no_blind_reward);
        (p, m)
    }
}

/// The suits in the byte order of their letters: C, D, H, S.
pub open spec fn suit_in_key_order(i: int) -> Suit {
    if i == 0 {
        Suit::Clubs
    } else if i == 1 {
        Suit::Diamonds
    } else if i == 2 {
        Suit::Hearts
    } else {
        Suit::Spades
    }
}

/// The ranks in the byte order of their characters: 2 to 9, A, J, K, Q, T.
pub open spec fn rank_in_key_order(i: int) -> Rank {
    if i < 8 {
        Rank((i + 2) as u8)
    } else if i == 8 {
        Rank(14)
    } else if i == 9 {
        Rank(11)
    } else if i == 10 {
        Rank(13)
    } else if i == 11 {
        Rank(12)
    } else {
        Rank(10)
    }
}

/// The 52 cards in the byte order of their keys.
pub open spec fn front(i: int) -> (Suit, Rank) {
    (suit_in_key_order(i / 13), rank_in_key_order(i % 13))
}

/// The card at place `i` of the 52 in key order.
pub fn front_at(i: usize) -> (r: (Suit, Rank))
    requires
        i < 52,
    ensures
        r == front(i as int),
{
    let s: usize = i / 13;
    let k: usize = i % 13;
    let suit = if s == 0 {
        Suit::Clubs
    } else if s == 1 {
        Suit::Diamonds
    } else if s == 2 {
        Suit::Hearts
    } else {
        Suit::Spades
    };
    let rank: u8 = if k < 8 {
        (k + 2) as u8
    } else if k == 8 {
        14
    } else if k == 9 {
        11
    } else if k == 10 {
        13
    } else if k == 11 {
        12
    } else {
        10
    };
    (suit, Rank(rank))
}

/// The 52 cards in key order.
pub fn p_cards_sorted() -> (r: Vec<(Suit, Rank)>)
    ensures
        r@ == Seq::new(52, |i: int| front(i)),
{
    let mut v: Vec<(Suit, Rank)> = Vec::new();
    let mut i: usize = 0;
    while i < 52
        invariant
            i <= 52,
            v@ == Seq::new(i as nat, |i: int| front(i)),
        decreases 52 - i,
    {
        v.push(front_at(i));
        i = i + 1;
        assert(v@ =~= Seq::new(i as nat, |i: int| front(i)));
    }
    v
}

// ---- laws ----------------------------------------------------------------

/// The stake's part of the rules does not depend on the deck.
pub proof fn law_stake_rules_do_not_depend_on_the_deck(a: RunConfig, b: RunConfig)
    requires
        a.stake == b.stake,
    ensures
        a.modifiers().scaling == b.modifiers().scaling,
        a.modifiers().no_blind_reward == b.modifiers().no_blind_reward,
        a.modifiers().enable_eternals_in_shop == b.modifiers().enable_eternals_in_shop,
        a.modifiers().enable_perishables_in_shop == b.modifiers().enable_perishables_in_shop,
        a.modifiers().enable_rentals_in_shop == b.modifiers().enable_rentals_in_shop,
{
}

/// Stake rules are cumulative: what holds at one stake holds at every higher
/// one, and the blind curve does not fall back.
pub proof fn law_stake_rules_are_cumulative(a: RunConfig, b: RunConfig)
    requires
        a.stake.number() <= b.stake.number(),
    ensures
        a.modifiers().no_blind_reward[0] ==> b.modifiers().no_blind_reward[0],
        a.modifiers().enable_eternals_in_shop ==> b.modifiers().enable_eternals_in_shop,
        a.modifiers().enable_perishables_in_shop ==> b.modifiers().enable_perishables_in_shop,
        a.modifiers().enable_rentals_in_shop ==> b.modifiers().enable_rentals_in_shop,
        a.modifiers().scaling == Scaling::Two ==> b.modifiers().scaling != Scaling::One,
        a.modifiers().scaling == Scaling::Three ==> b.modifiers().scaling == Scaling::Three,
        a.deck == b.deck ==> a.params().discards >= b.params().discards,
{
}

/// Deck and stake act independently: what changing the deck does to the
/// starting numbers is the same at every stake.
pub proof fn law_deck_and_stake_commute(deck: Deck, other: Deck, s: Stake, t: Stake)
    ensures
        ({
            let at = |d: Deck, k: Stake|
                (RunConfig { deck: d, stake: k, win_ante: 8, endless: false }).params();
            at(deck, s).discards - at(other, s).discards == at(deck, t).discards - at(
                other,
                t,
            ).discards && at(deck, s).hands == at(deck, t).hands && at(deck, s).dollars == at(
                deck,
                t,
            ).dollars
        }),
{
}

/// The index of a deck finds the deck, and the level of a stake the stake.
pub proof fn law_indices_round_trip(i: int, k: int)
    requires
        0 <= i < 15,
        0 <= k < 8,
    ensures
        forall|j: int| 0 <= j < 15 && Deck::ALL[j] == Deck::ALL[i] ==> j == i,
        Stake::ALL[k].number() == k + 1,
{
}

/// Every suit and rank stands exactly once among the 52.
pub proof fn law_fronts_are_distinct(i: int, j: int)
    requires
        0 <= i < 52,
        0 <= j < 52,
        front(i) == front(j),
    ensures
        i == j,
{
}

/// Every rank from 2 to Ace of every suit stands among the 52.
pub proof fn law_fronts_are_complete(suit: Suit, rank: Rank)
    requires
        2 <= rank.0 <= 14,
    ensures
        exists|i: int| 0 <= i < 52 && #[trigger] front(i) == (suit, rank),
{
    let s: int = match suit {
        Suit::Clubs => 0,
        Suit::Diamonds => 1,
        Suit::Hearts => 2,
        Suit::Spades => 3,
    };
    let r: int = if rank.0 <= 9 {
        rank.0 - 2
    } else if rank.0 == 10 {
        12
    } else if rank.0 == 11 {
        9
    } else if rank.0 == 12 {
        11
    } else if rank.0 == 13 {
        10
    } else {
        8
    };
    assert((s * 13 + r) / 13 == s);
    assert((s * 13 + r) % 13 == r);
    assert(front(s * 13 + r) == (suit, rank));
}

} // verus!
