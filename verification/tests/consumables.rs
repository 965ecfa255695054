use balatro_core::cards::{Card, Edition, Enhancement, HandType, Rank, Seal, Suit};
use balatro_core::consumables::{planet_for_hand, purple_seal_tarot};
use balatro_core::items::{consumable_by_key, hand_for_planet, ConsumableSet};
use balatro_core::keymap::KeyMap;
use balatro_core::perhand::PerHand;
use balatro_core::registry::JokerId;
use balatro_core::rng::RngState;
use balatro_core::run::{Run, RunError};

/// A run in the first round with a hand of low cards, holding a consumable.
fn holding(key: &'static str) -> Run {
    let mut run = Run::new("HOLDING");
    run.select_blind().unwrap();
    run.hand = (0..8u32)
        .map(|i| Card::new(Rank(2 + i as u8), Suit::Clubs, 700 + i))
        .collect();
    run.debug_add_consumable(key);
    run
}

#[test]
fn every_hand_has_its_planet() {
    for ht in HandType::ALL {
        assert_eq!(hand_for_planet(planet_for_hand(ht)), Some(ht));
    }
    assert_eq!(planet_for_hand(HandType::Pair), "c_mercury");
}

#[test]
fn purple_seals_make_tarots() {
    let mut rng = RngState::new("PURPLE");
    let mut used: KeyMap<()> = KeyMap::new();
    for _ in 0..10 {
        let key = purple_seal_tarot(&mut rng, 1, &used);
        assert_eq!(consumable_by_key(key).unwrap().1, ConsumableSet::Tarot);
        assert!(!used.contains(key));
        used.insert(key, ());
    }
}

#[test]
fn values_per_hand() {
    let mut p: PerHand<i64> = PerHand::uniform(7);
    p.set(HandType::Flush, 9);
    assert_eq!(p.get(HandType::Flush), 9);
    assert_eq!(p.get(HandType::Pair), 7);
}

#[test]
fn planets_raise_their_hand() {
    let mut run = holding("c_mercury");
    run.use_consumable(0, &[]).unwrap();
    assert_eq!(run.hands_table().get(HandType::Pair).level, 2);
    assert!(run.consumables().is_empty());
    let mut run = holding("c_black_hole");
    run.use_consumable(0, &[]).unwrap();
    for ht in HandType::ALL {
        assert_eq!(run.hands_table().get(ht).level, 2);
    }
}

#[test]
fn tarots_enhance_their_targets() {
    for (key, e, most) in [
        ("c_magician", Enhancement::Lucky, 2),
        ("c_empress", Enhancement::Mult, 2),
        ("c_heirophant", Enhancement::Bonus, 2),
        ("c_lovers", Enhancement::Wild, 1),
        ("c_chariot", Enhancement::Steel, 1),
        ("c_justice", Enhancement::Glass, 1),
        ("c_devil", Enhancement::Gold, 1),
        ("c_tower", Enhancement::Stone, 1),
    ] {
        let mut run = holding(key);
        let targets: Vec<usize> = (0..most).collect();
        assert!(run.consumable_can_use(key, &targets).is_ok());
        let many: Vec<usize> = (0..most + 1).collect();
        assert!(run.consumable_can_use(key, &many).is_err(), "{key}");
        assert!(run.consumable_can_use(key, &[]).is_err(), "{key}");
        run.use_consumable(0, &targets).unwrap();
        let changed = run.hand().iter().filter(|c| c.enhancement == e).count();
        assert_eq!(changed, most, "{key}");
    }
}

#[test]
fn suits_ranks_and_copies() {
    let mut run = holding("c_star");
    run.use_consumable(0, &[0, 1, 2]).unwrap();
    assert_eq!(run.hand().iter().filter(|c| c.suit == Suit::Diamonds).count(), 3);
    let mut run = holding("c_strength");
    run.use_consumable(0, &[0, 1]).unwrap();
    let mut ranks: Vec<u8> = run.hand().iter().map(|c| c.rank.0).collect();
    ranks.sort();
    assert_eq!(ranks, vec![3, 4, 4, 5, 6, 7, 8, 9]);
    let mut run = holding("c_hanged_man");
    run.use_consumable(0, &[0, 1]).unwrap();
    assert_eq!(run.hand().len(), 6);
    assert_eq!(run.destroyed_cards().len(), 2);
    let mut run = holding("c_cryptid");
    run.use_consumable(0, &[3]).unwrap();
    assert_eq!(run.hand().iter().filter(|c| c.rank == Rank(5)).count(), 3);
    let mut run = holding("c_talisman");
    run.use_consumable(0, &[3]).unwrap();
    assert_eq!(run.hand().iter().filter(|c| c.seal == Seal::Gold).count(), 1);
}

#[test]
fn money_tarots() {
    let mut run = holding("c_hermit");
    run.debug_set_dollars(7);
    run.use_consumable(0, &[]).unwrap();
    assert_eq!(run.dollars(), 14);
    let mut run = holding("c_hermit");
    run.debug_set_dollars(70);
    run.use_consumable(0, &[]).unwrap();
    assert_eq!(run.dollars(), 90);
    let mut run = holding("c_temperance");
    run.debug_set_dollars(0);
    run.debug_add_joker(JokerId::Joker, Edition::Plain);
    run.debug_add_joker(JokerId::Blueprint, Edition::Plain);
    run.use_consumable(0, &[]).unwrap();
    assert_eq!(run.dollars(), 6);
}

#[test]
fn the_fool_copies_the_last_card_used() {
    let mut run = holding("c_fool");
    assert_eq!(
        run.use_consumable(0, &[]),
        Err(RunError::CannotUse("nothing to copy".to_string()))
    );
    run.debug_add_consumable("c_mercury");
    run.use_consumable(1, &[]).unwrap();
    assert!(run.consumable_has_any_use("c_fool"));
    run.use_consumable(0, &[]).unwrap();
    let keys: Vec<&str> = run.consumables().iter().map(|c| c.key).collect();
    assert_eq!(keys, vec!["c_mercury"]);
    run.use_consumable(0, &[]).unwrap();
    run.debug_add_consumable("c_fool");
    run.use_consumable(0, &[]).unwrap();
    assert_eq!(run.consumables()[0].key, "c_mercury");
}

#[test]
fn makers_need_room() {
    let mut run = holding("c_emperor");
    run.debug_add_consumable("c_mars");
    assert!(run.use_consumable(0, &[]).is_ok());
    assert_eq!(run.consumables().len(), 2);
    let mut run = holding("c_judgement");
    run.use_consumable(0, &[]).unwrap();
    assert_eq!(run.jokers().len(), 1);
    let mut run = holding("c_judgement");
    for _ in 0..5 {
        run.debug_add_joker(JokerId::Joker, Edition::Plain);
    }
    assert_eq!(
        run.use_consumable(0, &[]),
        Err(RunError::CannotUse("joker slots full".to_string()))
    );
    assert_eq!(run.consumables().len(), 1);
}

#[test]
fn ankh_keeps_one_joker_twice() {
    let mut run = holding("c_ankh");
    run.debug_add_joker(JokerId::Joker, Edition::Plain);
    run.debug_add_joker(JokerId::Juggler, Edition::Plain);
    run.debug_add_joker(JokerId::Baron, Edition::Plain);
    run.use_consumable(0, &[]).unwrap();
    assert_eq!(run.jokers().len(), 2);
    assert_eq!(run.jokers()[0].id, run.jokers()[1].id);
}

#[test]
fn hex_and_ectoplasm_change_a_joker() {
    let mut run = holding("c_hex");
    run.debug_add_joker(JokerId::Joker, Edition::Plain);
    run.debug_add_joker(JokerId::Baron, Edition::Plain);
    run.use_consumable(0, &[]).unwrap();
    assert_eq!(run.jokers().len(), 1);
    assert_eq!(run.jokers()[0].edition, Edition::Polychrome);
    let mut run = holding("c_ectoplasm");
    run.debug_add_joker(JokerId::Joker, Edition::Plain);
    let size = run.hand_size();
    run.use_consumable(0, &[]).unwrap();
    assert_eq!(run.jokers()[0].edition, Edition::Negative);
    assert_eq!((run.hand_size(), run.joker_slots()), (size - 1, 6));
}

#[test]
fn unusable_consumables_stay() {
    let mut run = holding("c_hex");
    assert!(!run.consumable_has_any_use("c_hex"));
    assert_eq!(
        run.use_consumable(0, &[]),
        Err(RunError::CannotUse("no editionless joker".to_string()))
    );
    assert_eq!(
        run.use_consumable(4, &[]),
        Err(RunError::BadSlot("consumable 4".to_string()))
    );
    assert!(run.consumable_can_use("c_death", &[1]).is_err());
    assert!(run.consumable_can_use("c_death", &[1, 2]).is_ok());
    assert!(run.consumable_can_use("c_death", &[1, 99]).is_err());
    assert!(run.consumable_can_use("j_joker", &[]).is_err());
    assert_eq!(run.consumables().len(), 1);
}
