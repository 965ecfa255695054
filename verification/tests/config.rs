use balatro_core::cards::{Rank, Suit};
use balatro_core::config::{p_cards_sorted, Deck, RunConfig, Scaling, Stake};
use balatro_core::double::Double;

fn number(x: Double) -> f64 {
    f64::from_bits(x.to_bits())
}

#[test]
fn deck_and_stake_discriminants_are_frozen() {
    assert_eq!(Deck::Red as usize, 0);
    assert_eq!(Deck::Plasma as usize, 13);
    assert_eq!(Deck::Erratic as usize, 14);
    assert_eq!(Stake::White.level(), 1);
    assert_eq!(Stake::Gold.level(), 8);
    for (i, d) in Deck::ALL.iter().enumerate() {
        assert_eq!(*d as usize, i);
        assert_eq!(Deck::from_index(i), Some(*d));
    }
    for (i, s) in Stake::ALL.iter().enumerate() {
        assert_eq!(s.level() as usize, i + 1);
        assert_eq!(Stake::from_level(s.level()), Some(*s));
    }
}

#[test]
fn red_white_reproduces_the_previous_hardcoded_constants() {
    let (p, m) = RunConfig::default().resolve();
    assert_eq!(p.dollars, 4);
    assert_eq!(p.hand_size, 8);
    assert_eq!(p.hands, 4);
    assert_eq!(p.discards, 4, "base 3 + Red Deck's +1");
    assert_eq!(p.reroll_cost, 5);
    assert_eq!(p.joker_slots, 5);
    assert_eq!(p.consumable_slots, 2);
    assert_eq!(number(p.ante_scaling), 1.0);
    assert!(!p.no_faces && !p.erratic_suits_and_ranks);
    assert_eq!(m.scaling, Scaling::One);
    assert_eq!(m.money_per_hand, 1);
    assert_eq!(m.money_per_discard, 0);
    assert_eq!(number(m.spectral_rate), 0.0);
    assert!(!m.no_interest);
    assert_eq!(m.no_blind_reward, [false; 3]);
    assert!(!m.enable_eternals_in_shop);
    assert!(!m.enable_perishables_in_shop);
    assert!(!m.enable_rentals_in_shop);
}

#[test]
fn stake_rules_are_cumulative_and_scaling_is_assigned() {
    let at = |s: Stake| RunConfig::new(Deck::Red, s).resolve();

    assert_eq!(at(Stake::White).1.scaling, Scaling::One);
    assert!(!at(Stake::White).1.no_blind_reward[0]);
    for s in [
        Stake::Red,
        Stake::Green,
        Stake::Black,
        Stake::Blue,
        Stake::Purple,
        Stake::Orange,
        Stake::Gold,
    ] {
        assert!(at(s).1.no_blind_reward[0], "{s:?} lost the Red rule");
    }
    assert_eq!(at(Stake::Green).1.scaling, Scaling::Two);
    assert_eq!(at(Stake::Blue).1.scaling, Scaling::Two);
    assert_eq!(at(Stake::Purple).1.scaling, Scaling::Three);
    assert_eq!(at(Stake::Gold).1.scaling, Scaling::Three);
    assert_eq!(at(Stake::Black).0.discards, 4);
    assert_eq!(at(Stake::Blue).0.discards, 3);

    assert!(at(Stake::Black).1.enable_eternals_in_shop);
    assert!(!at(Stake::Black).1.enable_perishables_in_shop);
    assert!(at(Stake::Orange).1.enable_perishables_in_shop);
    assert!(!at(Stake::Orange).1.enable_rentals_in_shop);
    assert!(at(Stake::Gold).1.enable_rentals_in_shop);
}

#[test]
fn deck_effects_match_their_config_tables() {
    let at = |d: Deck| RunConfig::new(d, Stake::White).resolve();

    assert_eq!(at(Deck::Blue).0.hands, 5);
    assert_eq!(at(Deck::Yellow).0.dollars, 14);
    assert_eq!(at(Deck::Black).0.hands, 3);
    assert_eq!(at(Deck::Black).0.joker_slots, 6);
    assert_eq!(at(Deck::Painted).0.hand_size, 10);
    assert_eq!(at(Deck::Painted).0.joker_slots, 4);
    assert_eq!(at(Deck::Nebula).0.consumable_slots, 1);
    assert_eq!(number(at(Deck::Plasma).0.ante_scaling), 2.0);
    assert!(at(Deck::Plasma).1.plasma_balance);
    assert!(at(Deck::Abandoned).0.no_faces);
    assert!(at(Deck::Erratic).0.erratic_suits_and_ranks);
    assert!(at(Deck::Checkered).1.checkered_suits);
    assert!(at(Deck::Anaglyph).1.anaglyph_double_tag);
    assert_eq!(number(at(Deck::GhostDeck).1.spectral_rate), 2.0);
    let (_, g) = at(Deck::Green);
    assert!(g.no_interest);
    assert_eq!(g.money_per_hand, 2);
    assert_eq!(g.money_per_discard, 1);
    assert_eq!(Deck::Magic.starting_vouchers(), ["v_crystal_ball"]);
    assert_eq!(Deck::Nebula.starting_vouchers(), ["v_telescope"]);
    assert_eq!(Deck::Zodiac.starting_vouchers().len(), 3);
    assert_eq!(Deck::Magic.starting_consumables(), ["c_fool", "c_fool"]);
    assert_eq!(Deck::GhostDeck.starting_consumables(), ["c_hex"]);
    assert!(Deck::Red.starting_vouchers().is_empty());
    assert!(Deck::Red.starting_consumables().is_empty());
}

#[test]
fn stake_block_precedes_the_deck() {
    let (p, _) = RunConfig::new(Deck::Black, Stake::Blue).resolve();
    assert_eq!(p.discards, 2, "base 3, Blue Stake -1, Black Deck adds none");
    assert_eq!(p.hands, 3);
    assert_eq!(p.joker_slots, 6);
}

#[test]
fn p_cards_sorted_matches_lua_key_order() {
    assert_eq!(p_cards_sorted().len(), 52);
    assert_eq!(p_cards_sorted()[0], (Suit::Clubs, Rank(2)));
    assert_eq!(p_cards_sorted()[8], (Suit::Clubs, Rank(14)), "C_A after C_9");
    assert_eq!(p_cards_sorted()[9], (Suit::Clubs, Rank(11)), "C_J");
    assert_eq!(p_cards_sorted()[10], (Suit::Clubs, Rank(13)), "C_K");
    assert_eq!(p_cards_sorted()[11], (Suit::Clubs, Rank(12)), "C_Q");
    assert_eq!(p_cards_sorted()[12], (Suit::Clubs, Rank(10)), "C_T last");
    assert_eq!(p_cards_sorted()[13], (Suit::Diamonds, Rank(2)));
    assert_eq!(p_cards_sorted()[51], (Suit::Spades, Rank(10)));
    let mut seen = std::collections::HashSet::new();
    for entry in p_cards_sorted() {
        assert!(seen.insert(entry), "duplicate {entry:?}");
    }
    assert_eq!(seen.len(), 52);
}
