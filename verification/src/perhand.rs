//! One value for each poker hand.
use crate::cards::HandType;
use vstd::prelude::*;

verus! {

/// One value for each poker hand.
#[derive(Debug, Clone, Copy, PartialEq, Eq)]
pub struct PerHand<T> {
    pub high_card: T,
    pub pair: T,
    pub two_pair: T,
    pub three: T,
    pub straight: T,
    pub flush: T,
    pub full_house: T,
    pub four: T,
    pub straight_flush: T,
    pub five: T,
    pub flush_house: T,
    pub flush_five: T,
}

impl<T: Copy> PerHand<T> {
    /// The same value for every hand.
    pub open spec fn all(v: T) -> PerHand<T> {
        PerHand {
            high_card: v,
            pair: v,
            two_pair: v,
            three: v,
            straight: v,
            flush: v,
            full_house: v,
            four: v,
            straight_flush: v,
            five: v,
            flush_house: v,
            flush_five: v,
        }
    }

    /// The value of a hand.
    #[verifier::opaque]
    pub open spec fn at(self, ht: HandType) -> T {
        match ht {
            HandType::HighCard => self.high_card,
            HandType::Pair => self.pair,
            HandType::TwoPair => self.two_pair,
            HandType::ThreeOfAKind => self.three,
            HandType::Straight => self.straight,
            HandType::Flush => self.flush,
            HandType::FullHouse => self.full_house,
            HandType::FourOfAKind => self.four,
            HandType::StraightFlush => self.straight_flush,
            HandType::FiveOfAKind => self.five,
            HandType::FlushHouse => self.flush_house,
            HandType::FlushFive => self.flush_five,
        }
    }

    /// The table with the value of one hand replaced.
    #[verifier::opaque]
    pub open spec fn with(self, ht: HandType, v: T) -> PerHand<T> {
        match ht {
            HandType::HighCard => PerHand { high_card: v, ..self },
            HandType::Pair => PerHand { pair: v, ..self },
            HandType::TwoPair => PerHand { two_pair: v, ..self },
            HandType::ThreeOfAKind => PerHand { three: v, ..self },
            HandType::Straight => PerHand { straight: v, ..self },
            HandType::Flush => PerHand { flush: v, ..self },
            HandType::FullHouse => PerHand { full_house: v, ..self },
            HandType::FourOfAKind => PerHand { four: v, ..self },
            HandType::StraightFlush => PerHand { straight_flush: v, ..self },
            HandType::FiveOfAKind => PerHand { five: v, ..self },
            HandType::FlushHouse => PerHand { flush_house: v, ..self },
            HandType::FlushFive => PerHand { flush_five: v, ..self },
        }
    }

    pub fn uniform(v: T) -> (r: Self)
        ensures
            r == PerHand::all(v),
    {
        PerHand {
            high_card: v,
            pair: v,
            two_pair: v,
            three: v,
            straight: v,
            flush: v,
            full_house: v,
            four: v,
            straight_flush: v,
            five: v,
            flush_house: v,
            flush_five: v,
        }
    }

    pub fn get(&self, ht: HandType) -> (r: T)
        ensures
            r == self.at(ht),
    {
        proof {
            reveal(PerHand::at);
        }
        match ht {
            HandType::HighCard => self.high_card,
            HandType::Pair => self.pair,
            HandType::TwoPair => self.two_pair,
            HandType::ThreeOfAKind => self.three,
            HandType::Straight => self.straight,
            HandType::Flush => self.flush,
            HandType::FullHouse => self.full_house,
            HandType::FourOfAKind => self.four,
            HandType::StraightFlush => self.straight_flush,
            HandType::FiveOfAKind => self.five,
            HandType::FlushHouse => self.flush_house,
            HandType::FlushFive => self.flush_five,
        }
    }

    pub fn set(&mut self, ht: HandType, v: T)
        ensures
            *final(self) == old(self).with(ht, v),
    {
        proof {
            reveal(PerHand::with);
        }
        match ht {
            HandType::HighCard => {
                self.high_card = v;
            },
            HandType::Pair => {
                self.pair = v;
            },
            HandType::TwoPair => {
                self.two_pair = v;
            },
            HandType::ThreeOfAKind => {
                self.three = v;
            },
            HandType::Straight => {
                self.straight = v;
            },
            HandType::Flush => {
                self.flush = v;
            },
            HandType::FullHouse => {
                self.full_house = v;
            },
            HandType::FourOfAKind => {
                self.four = v;
            },
            HandType::StraightFlush => {
                self.straight_flush = v;
            },
            HandType::FiveOfAKind => {
                self.five = v;
            },
            HandType::FlushHouse => {
                self.flush_house = v;
            },
            HandType::FlushFive => {
                self.flush_five = v;
            },
        }
    }
}

/// Replacing the value of one hand leaves the others.
pub proof fn law_with_changes_one_hand<T: Copy>(t: PerHand<T>, ht: HandType, other: HandType, v: T)
    ensures
        t.with(ht, v).at(other) == if other == ht {
            v
        } else {
            t.at(other)
        },
{
    reveal(PerHand::at);
    reveal(PerHand::with);
}

} // verus!
