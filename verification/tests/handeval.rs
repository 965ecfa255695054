use balatro_core::cards::{Card, Enhancement, HandType, Rank, Suit};
use balatro_core::handeval::{
    evaluate_poker_hand, get_flush, get_highest, get_poker_hand_info, get_straight, get_x_same,
    EvalMods,
};

/// Cards written as rank and suit, such as `TS` or `AH`.
fn hand(text: &str) -> Vec<Card> {
    text.split_whitespace()
        .enumerate()
        .map(|(i, t)| {
            let mut cs = t.chars();
            let rank = match cs.next().unwrap() {
                'T' => 10,
                'J' => 11,
                'Q' => 12,
                'K' => 13,
                'A' => 14,
                d => d.to_digit(10).unwrap() as u8,
            };
            let suit = match cs.next().unwrap() {
                'S' => Suit::Spades,
                'H' => Suit::Hearts,
                'C' => Suit::Clubs,
                _ => Suit::Diamonds,
            };
            Card::new(Rank(rank), suit, i as u32 + 1)
        })
        .collect()
}

fn plain() -> EvalMods {
    EvalMods { four_fingers: false, shortcut: false, smeared: false }
}

fn kind(text: &str, mods: EvalMods) -> (HandType, Vec<usize>) {
    let (ht, mut places, _) = get_poker_hand_info(&hand(text), &mods);
    places.sort();
    (ht, places)
}

#[test]
fn every_hand_is_recognised() {
    let m = plain();
    assert_eq!(kind("2S 7H KD 9C", m), (HandType::HighCard, vec![2]));
    assert_eq!(kind("2S 7H 2D 9C", m), (HandType::Pair, vec![0, 2]));
    assert_eq!(kind("2S 7H 2D 7C KS", m), (HandType::TwoPair, vec![0, 1, 2, 3]));
    assert_eq!(kind("2S 7H 2D 2C KS", m), (HandType::ThreeOfAKind, vec![0, 2, 3]));
    assert_eq!(kind("5S 6H 4D 8C 7S", m), (HandType::Straight, vec![0, 1, 2, 3, 4]));
    assert_eq!(kind("5S 6S 4S 8S KS", m), (HandType::Flush, vec![0, 1, 2, 3, 4]));
    assert_eq!(kind("5S 5H KS KD KC", m), (HandType::FullHouse, vec![0, 1, 2, 3, 4]));
    assert_eq!(kind("5S 5H 5D KD 5C", m), (HandType::FourOfAKind, vec![0, 1, 2, 4]));
    assert_eq!(kind("TS JS QS KS AS", m), (HandType::StraightFlush, vec![0, 1, 2, 3, 4]));
    assert_eq!(kind("5S 5H 5D 5D 5C", m), (HandType::FiveOfAKind, vec![0, 1, 2, 3, 4]));
    assert_eq!(kind("5S 5S KS KS KS", m), (HandType::FlushHouse, vec![0, 1, 2, 3, 4]));
    assert_eq!(kind("5S 5S 5S 5S 5S", m), (HandType::FlushFive, vec![0, 1, 2, 3, 4]));
}

#[test]
fn the_ace_ends_a_straight_at_either_side() {
    let m = plain();
    assert_eq!(kind("AS 2H 3D 4C 5S", m).0, HandType::Straight);
    assert_eq!(kind("TS JH QD KC AS", m).0, HandType::Straight);
    assert_eq!(kind("QS KH AD 2C 3S", m).0, HandType::HighCard);
}

#[test]
fn four_fingers_and_shortcut_loosen_straights() {
    let four = EvalMods { four_fingers: true, ..plain() };
    let gaps = EvalMods { shortcut: true, ..plain() };
    assert_eq!(kind("5S 6H 7D 8C", plain()).0, HandType::HighCard);
    assert_eq!(kind("5S 6H 7D 8C", four).0, HandType::Straight);
    assert_eq!(kind("2S 4H 6D 8C TS", plain()).0, HandType::HighCard);
    assert_eq!(kind("2S 4H 6D 8C TS", gaps).0, HandType::Straight);
    // two ranks in a row cannot be left out
    assert_eq!(kind("2S 5H 6D 7C 8S", gaps).0, HandType::HighCard);
    assert_eq!(kind("5S 6S 7S 8S", four).0, HandType::StraightFlush);
}

#[test]
fn smeared_joins_the_colours() {
    let smeared = EvalMods { smeared: true, ..plain() };
    assert_eq!(kind("2H 4D 6H 8D TH", plain()).0, HandType::HighCard);
    assert_eq!(kind("2H 4D 6H 8D TH", smeared).0, HandType::Flush);
    assert_eq!(kind("2H 4S 6H 8D TH", smeared).0, HandType::HighCard);
}

#[test]
fn wild_cards_have_every_suit_unless_debuffed() {
    let mut cards = hand("2H 4H 6H 8H TS");
    cards[4].enhancement = Enhancement::Wild;
    assert_eq!(get_flush(&cards, &plain()).len(), 1);
    cards[4].debuff = true;
    assert_eq!(get_flush(&cards, &plain()).len(), 0);
}

#[test]
fn stone_cards_have_no_rank() {
    let mut cards = hand("5S 5H 5D");
    cards[1].enhancement = Enhancement::Stone;
    assert_eq!(get_poker_hand_info(&cards, &plain()).0, HandType::Pair);
    assert_eq!(get_x_same(3, &cards).len(), 0);
    assert_eq!(get_x_same(2, &cards).len(), 1);
}

#[test]
fn groups_of_one_rank_are_exact() {
    let cards = hand("5S KH 5D KC 5H");
    let pairs = get_x_same(2, &cards);
    let threes = get_x_same(3, &cards);
    assert_eq!(pairs.len(), 1);
    assert_eq!(threes.len(), 1);
    let mut three = threes[0].clone();
    three.sort();
    assert_eq!(three, vec![0, 2, 4]);
}

#[test]
fn the_highest_card_comes_alone() {
    assert_eq!(get_highest(&hand("2S KH QD")), vec![vec![1]]);
    assert!(get_highest(&Vec::new()).is_empty());
}

#[test]
fn stronger_hands_hold_weaker_ones() {
    let found = evaluate_poker_hand(&hand("5S 5S KS KS KS"), &plain());
    for ht in [
        HandType::FlushHouse,
        HandType::FullHouse,
        HandType::Flush,
        HandType::ThreeOfAKind,
        HandType::TwoPair,
        HandType::Pair,
        HandType::HighCard,
    ] {
        assert!(found.has(ht), "{ht:?}");
    }
    assert!(!found.has(HandType::FlushFive));
    assert!(!found.has(HandType::Straight));
    assert_eq!(found.top, Some(HandType::FlushHouse));
    let three = evaluate_poker_hand(&hand("KS KH KD"), &plain());
    assert!(three.has(HandType::Pair));
    let straight = get_straight(&hand("5S 6H 7D 8C 9S"), &plain());
    assert_eq!(straight.len(), 1);
    assert_eq!(straight[0].len(), 5);
}

#[test]
fn an_empty_selection_holds_nothing() {
    let found = evaluate_poker_hand(&Vec::new(), &plain());
    assert_eq!(found.top, None);
    assert!(found.get(HandType::HighCard).is_empty());
}
