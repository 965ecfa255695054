use balatro_core::cards::{Card, Suit};
use balatro_core::config::{Deck, Stake};
use balatro_core::deck::{build_deck, pseudoshuffle, rank_sort_key, red_deck, suit_sort_key};
use balatro_core::double::Double;
use balatro_core::rng::RngState;
use std::collections::HashMap;

fn build(d: Deck) -> Vec<Card> {
    build_deck(d, &mut RngState::new("DECKTEST"))
}
#[test]
fn only_three_decks_change_the_starting_cards() {
    let red = red_deck();
    assert_eq!(red.len(), 52);
    for d in Deck::ALL {
        let cards = build(d);
        let differs = matches!(d, Deck::Abandoned | Deck::Checkered | Deck::Erratic);
        let same = cards.len() == red.len()
            && cards
                .iter()
                .zip(&red)
                .all(|(a, b)| a.rank == b.rank && a.suit == b.suit && a.sort_id == b.sort_id);
        assert_eq!(
            same,
            !differs,
            "{d:?} composition unexpectedly {}",
            if same { "unchanged" } else { "changed" }
        );
    }
}

#[test]
fn abandoned_drops_the_face_cards() {
    let cards = build(Deck::Abandoned);
    assert_eq!(cards.len(), 40, "52 - 12 face cards");
    assert!(cards.iter().all(|c| !matches!(c.rank.0, 11 | 12 | 13)));
    let ids: Vec<u32> = cards.iter().map(|c| c.sort_id).collect();
    assert_eq!(ids, (1..=40).collect::<Vec<_>>());
    let mut per_suit: HashMap<Suit, usize> = HashMap::new();
    for c in &cards {
        *per_suit.entry(c.suit).or_default() += 1;
    }
    assert!(per_suit.values().all(|&n| n == 10), "{per_suit:?}");
}

#[test]
fn checkered_recolours_without_reordering() {
    let red = red_deck();
    let cards = build(Deck::Checkered);
    assert_eq!(cards.len(), 52);

    let mut per_suit: HashMap<Suit, usize> = HashMap::new();
    for c in &cards {
        *per_suit.entry(c.suit).or_default() += 1;
    }
    assert_eq!(per_suit.get(&Suit::Spades), Some(&26));
    assert_eq!(per_suit.get(&Suit::Hearts), Some(&26));
    assert_eq!(per_suit.get(&Suit::Clubs), None);
    assert_eq!(per_suit.get(&Suit::Diamonds), None);
    for (a, b) in cards.iter().zip(&red) {
        assert_eq!(a.rank, b.rank);
        assert_eq!(a.sort_id, b.sort_id);
        let want = match b.suit {
            Suit::Clubs => Suit::Spades,
            Suit::Diamonds => Suit::Hearts,
            other => other,
        };
        assert_eq!(a.suit, want);
    }
}

#[test]
fn erratic_is_52_cards_seed_determined_and_sorted() {
    let a = build(Deck::Erratic);
    let b = build(Deck::Erratic);
    assert_eq!(a.len(), 52, "always 52, duplicates and all");
    assert!(a
        .iter()
        .zip(&b)
        .all(|(x, y)| x.rank == y.rank && x.suit == y.suit));
    let c = build_deck(Deck::Erratic, &mut RngState::new("OTHERSEED"));
    assert!(
        a.iter()
            .zip(&c)
            .any(|(x, y)| x.rank != y.rank || x.suit != y.suit),
        "two seeds produced identical erratic decks"
    );
    let ids: Vec<u32> = a.iter().map(|x| x.sort_id).collect();
    assert_eq!(ids, (1..=52).collect::<Vec<_>>());
    let keys: Vec<(u8, u8)> = a
        .iter()
        .map(|x| (suit_sort_key(x.suit), rank_sort_key(x.rank)))
        .collect();
    assert!(keys.windows(2).all(|w| w[0] <= w[1]), "not sorted by s..r");
}
#[test]
fn only_erratic_consumes_rng() {
    for d in Deck::ALL {
        let mut rng = RngState::new("STREAMS");
        let _ = build_deck(d, &mut rng);
        let after = rng.pseudoseed("shuffle");

        let mut fresh = RngState::new("STREAMS");
        let baseline = fresh.pseudoseed("shuffle");
        assert_eq!(after, baseline, "{d:?} disturbed the 'shuffle' stream");
    }
}
#[test]
fn stake_does_not_affect_construction() {
    let _ = Stake::Gold;
    assert_eq!(build(Deck::Red).len(), 52);
}

#[test]
fn shuffles_keep_the_cards_and_forget_the_order() {
    let seed = Double::from_bits(0.37f64.to_bits());
    let mut a = red_deck();
    let mut b = red_deck();
    b.reverse();
    pseudoshuffle(&mut a, seed);
    pseudoshuffle(&mut b, seed);
    assert_eq!(a, b);
    assert_ne!(a, red_deck());
    let mut ids: Vec<u32> = a.iter().map(|c| c.sort_id).collect();
    ids.sort();
    assert_eq!(ids, (1..=52).collect::<Vec<_>>());
    let mut none: Vec<Card> = Vec::new();
    pseudoshuffle(&mut none, seed);
    assert!(none.is_empty());
}

#[test]
fn erratic_ranks_run_from_two_to_the_ace() {
    for seed in ["DECKTEST", "OTHERSEED", "A", ""] {
        let deck = build_deck(Deck::Erratic, &mut RngState::new(seed));
        assert_eq!(deck.len(), 52);
        assert!(deck.iter().all(|c| (2..=14).contains(&c.rank.0)));
        let repeats = deck
            .windows(2)
            .any(|w| w[0].rank == w[1].rank && w[0].suit == w[1].suit);
        let red = red_deck();
        let same = deck
            .iter()
            .zip(&red)
            .all(|(x, y)| x.rank == y.rank && x.suit == y.suit);
        assert_ne!(repeats, same);
    }
}
