use balatro_core::blinds::{
    bl_big, bl_small, blind_by_key, boss_at, boss_by_key, get_blind_amount, get_new_boss,
    late_amount, ActiveBlind,
};
use balatro_core::cards::{Card, HandType, Rank, Suit};
use balatro_core::double::Double;
use balatro_core::keymap::KeyMap;
use balatro_core::rng::RngState;
use balatro_core::scoring::HandsTable;

fn num(x: Double) -> f64 {
    f64::from_bits(x.to_bits())
}

fn judged(b: &mut ActiveBlind, count: usize, ht: HandType) -> bool {
    let mut dollars: i64 = 10;
    b.debuff_hand(count, ht, &mut HandsTable::new(), &mut dollars, HandType::HighCard)
}

#[test]
fn amounts_grow_with_the_ante() {
    let amounts: Vec<f64> = (0..=8).map(|a| num(get_blind_amount(a))).collect();
    assert_eq!(
        amounts,
        vec![100.0, 300.0, 800.0, 2000.0, 5000.0, 11000.0, 20000.0, 35000.0, 50000.0]
    );
    assert_eq!(num(bl_small().chips(3)), 2000.0);
    assert_eq!(num(bl_big().chips(3)), 3000.0);
    assert_eq!(num(boss_by_key("bl_wall").chips(3)), 8000.0);
    assert_eq!(num(boss_by_key("bl_final_vessel").chips(8)), 300000.0);
    assert_eq!(num(bl_big().chips_of(Double::from_i64(1001))), 1501.5);
}

#[test]
fn late_amounts_keep_two_digits() {
    let expected = [(9, 110000.0), (10, 560000.0), (11, 7200000.0), (12, 300000000.0)];
    for (ante, amount) in expected {
        let c = (ante - 8) as f64;
        let raw = 50000.0 * (1.6 + (0.75 * c).powf(1.0 + 0.2 * c)).powf(c);
        let step = 10f64.powf((raw.floor().log10() - 1.0).floor());
        let r = late_amount(Double::from_bits(raw.to_bits()), Double::from_bits(step.to_bits()));
        assert_eq!(num(r), amount);
    }
}

#[test]
fn blinds_are_found_by_key() {
    assert_eq!(blind_by_key("bl_small"), Some(bl_small()));
    assert_eq!(blind_by_key("bl_big"), Some(bl_big()));
    assert_eq!(blind_by_key("bl_none"), None);
    for i in 0..28 {
        assert_eq!(blind_by_key(boss_at(i).key), Some(boss_at(i)));
        assert!(boss_at(i).is_boss);
    }
    assert!(!bl_small().is_boss);
}

#[test]
fn bosses_come_in_turn() {
    let mut rng = RngState::new("TURN");
    let mut used: KeyMap<i64> = KeyMap::new();
    let mut seen: Vec<&'static str> = Vec::new();
    // eight of the bosses may come at the first ante
    for _ in 0..8 {
        let key = get_new_boss(&mut rng, &mut used, 1, 8);
        assert!(!seen.contains(&key), "{key} came again too soon");
        assert_eq!(used.get(key), Some(1));
        seen.push(key);
    }
    let again = get_new_boss(&mut rng, &mut used, 1, 8);
    assert!(seen.contains(&again));
    assert_eq!(used.get(again), Some(2));
    let last = get_new_boss(&mut rng, &mut KeyMap::new(), 8, 8);
    assert!(last.starts_with("bl_final_"));
}

#[test]
fn showdown_bosses_come_at_multiples_of_the_winning_ante() {
    for ante in 1..=24i64 {
        let mut rng = RngState::new("ANTES");
        let mut used: KeyMap<i64> = KeyMap::new();
        for _ in 0..3 {
            let b = boss_by_key(get_new_boss(&mut rng, &mut used, ante, 8));
            assert_eq!(b.showdown, ante % 8 == 0, "{} at ante {ante}", b.key);
            assert!(b.showdown || b.boss_min <= ante);
        }
    }
}

#[test]
fn the_psychic_wants_five_cards() {
    let mut b = ActiveBlind::new(boss_by_key("bl_psychic"), 1);
    assert!(judged(&mut b, 4, HandType::Pair));
    assert!(!judged(&mut b, 5, HandType::Pair));
    b.disable();
    assert!(!judged(&mut b, 1, HandType::Pair));
}

#[test]
fn the_eye_takes_each_hand_once() {
    let mut b = ActiveBlind::new(boss_by_key("bl_eye"), 1);
    assert!(!judged(&mut b, 5, HandType::Pair));
    assert!(!judged(&mut b, 5, HandType::Flush));
    assert!(judged(&mut b, 5, HandType::Pair));
}

#[test]
fn the_mouth_takes_one_hand_only() {
    let mut b = ActiveBlind::new(boss_by_key("bl_mouth"), 1);
    assert!(!judged(&mut b, 5, HandType::Pair));
    assert!(judged(&mut b, 5, HandType::Flush));
    assert!(!judged(&mut b, 5, HandType::Pair));
    assert_eq!(b.only_hand, Some(HandType::Pair));
}

#[test]
fn the_arm_lowers_the_hand_and_the_ox_takes_the_dollars() {
    let mut b = ActiveBlind::new(boss_by_key("bl_arm"), 1);
    let mut hands = HandsTable::new();
    hands.level_up(HandType::Pair, 1);
    let mut dollars: i64 = 10;
    assert!(!b.debuff_hand(2, HandType::Pair, &mut hands, &mut dollars, HandType::HighCard));
    assert_eq!((hands.get(HandType::Pair).level, dollars), (1, 10));
    let mut b = ActiveBlind::new(boss_by_key("bl_ox"), 1);
    assert!(!b.debuff_hand(2, HandType::Pair, &mut hands, &mut dollars, HandType::HighCard));
    assert_eq!(dollars, 10);
    assert!(!b.debuff_hand(2, HandType::Pair, &mut hands, &mut dollars, HandType::Pair));
    assert_eq!(dollars, 0);
}

#[test]
fn the_flint_halves_the_base() {
    let mut b = ActiveBlind::new(boss_by_key("bl_flint"), 1);
    let (m, c, acted) = b.modify_hand(Double::from_i64(3), Double::from_i64(35));
    assert_eq!((num(m), num(c), acted), (2.0, 18.0, true));
    let (m, _, _) = b.modify_hand(Double::from_i64(1), Double::from_i64(5));
    assert_eq!(num(m), 1.0);
    b.disable();
    let (m, c, acted) = b.modify_hand(Double::from_i64(3), Double::from_i64(35));
    assert_eq!((num(m), num(c), acted), (3.0, 35.0, false));
}

#[test]
fn suits_and_faces_are_switched_off() {
    let heart = Card::new(Rank(9), Suit::Hearts, 1);
    let king = Card::new(Rank(13), Suit::Clubs, 2);
    let head = ActiveBlind::new(boss_by_key("bl_head"), 1);
    assert!(head.debuff_card(&heart, false, false));
    assert!(!head.debuff_card(&king, false, false));
    let plant = ActiveBlind::new(boss_by_key("bl_plant"), 1);
    assert!(plant.debuff_card(&king, false, false));
    assert!(!plant.debuff_card(&heart, false, false));
    assert!(plant.debuff_card(&heart, true, false));
    let mut pillar = ActiveBlind::new(boss_by_key("bl_pillar"), 1);
    let played = Card { played_this_ante: true, ..heart };
    assert!(pillar.debuff_card(&played, false, false));
    assert!(!pillar.debuff_card(&heart, false, false));
    pillar.disable();
    assert!(!pillar.debuff_card(&played, false, false));
}

#[test]
fn the_house_deals_the_first_hand_face_down() {
    let one = Double::from_i64(1);
    let c = Card::new(Rank(9), Suit::Hearts, 1);
    let mut rng = RngState::new("FLIP");
    let house = ActiveBlind::new(boss_by_key("bl_house"), 1);
    assert!(house.stay_flipped(&mut rng, &c, 0, 0, one, false));
    assert!(!house.stay_flipped(&mut rng, &c, 1, 0, one, false));
    let mark = ActiveBlind::new(boss_by_key("bl_mark"), 1);
    let queen = Card::new(Rank(12), Suit::Hearts, 1);
    assert!(mark.stay_flipped(&mut rng, &queen, 3, 0, one, false));
    assert!(!mark.stay_flipped(&mut rng, &c, 3, 0, one, false));
}

#[test]
fn a_disabled_wall_asks_for_half() {
    let mut b = ActiveBlind::new(boss_by_key("bl_wall"), 1);
    assert_eq!(num(b.chips), 1200.0);
    b.disable();
    assert_eq!(num(b.chips), 600.0);
}
