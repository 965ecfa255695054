use balatro_core::cards::{Card, Edition, Enhancement, HandType, Rank, Suit};
use balatro_core::double::Double;

fn num(x: Double) -> f64 {
    f64::from_bits(x.to_bits())
}

fn card(rank: u8, suit: Suit) -> Card {
    Card::new(Rank(rank), suit, 1)
}

#[test]
fn ranks_have_their_chips() {
    assert_eq!(Rank::ace(), Rank(14));
    assert_eq!(Rank(14).nominal(), 11);
    assert_eq!(Rank(13).nominal(), 10);
    assert_eq!(Rank(11).nominal(), 10);
    assert_eq!(Rank(10).nominal(), 10);
    assert_eq!(Rank(2).nominal(), 2);
    assert!(Rank(11).is_face() && Rank(13).is_face());
    assert!(!Rank(14).is_face() && !Rank(10).is_face());
    assert_eq!(Rank(10).key(), 'T');
    assert_eq!(Suit::Clubs.key(), 'C');
}

#[test]
fn chips_of_a_card() {
    let mut c = card(13, Suit::Hearts);
    assert_eq!(num(c.chip_bonus()), 10.0);
    c.enhancement = Enhancement::Bonus;
    assert_eq!(num(c.chip_bonus()), 40.0);
    c.perma_bonus = 5;
    assert_eq!(num(c.chip_bonus()), 45.0);
    c.enhancement = Enhancement::Stone;
    assert_eq!(num(c.chip_bonus()), 55.0);
}

#[test]
fn editions_have_their_values() {
    let value = |x: Option<Double>| x.map(num);
    let (c, m, x) = Edition::Foil.scoring_mods();
    assert_eq!((value(c), value(m), value(x)), (Some(50.0), None, None));
    let (c, m, x) = Edition::Holo.scoring_mods();
    assert_eq!((value(c), value(m), value(x)), (None, Some(10.0), None));
    let (c, m, x) = Edition::Polychrome.scoring_mods();
    assert_eq!((value(c), value(m), value(x)), (None, None, Some(1.5)));
    let (c, m, x) = Edition::Negative.scoring_mods();
    assert_eq!((value(c), value(m), value(x)), (None, None, None));
}

#[test]
fn suits_of_a_card() {
    let mut c = card(9, Suit::Hearts);
    assert!(c.is_suit(Suit::Hearts, false));
    assert!(!c.is_suit(Suit::Diamonds, false));
    assert!(c.is_suit(Suit::Diamonds, true));
    c.enhancement = Enhancement::Wild;
    assert!(c.is_suit(Suit::Spades, false));
    c.enhancement = Enhancement::Stone;
    assert!(!c.is_suit(Suit::Hearts, false));
    assert_eq!(c.id_for_eval(), None);
    c.enhancement = Enhancement::Plain;
    assert_eq!(c.id_for_eval(), Some(9));
    c.debuff = true;
    assert!(!c.is_suit_normal(Suit::Hearts, false));
    assert!(c.is_suit_bypass_debuff(Suit::Hearts, false));
}

#[test]
fn faces_as_a_blind_sees_them() {
    let mut c = card(12, Suit::Clubs);
    assert!(c.is_face_from_boss(false));
    assert!(!card(9, Suit::Clubs).is_face_from_boss(false));
    assert!(card(9, Suit::Clubs).is_face_from_boss(true));
    c.debuff = true;
    assert!(c.is_face_from_boss(false));
}

#[test]
fn hands_at_level_one() {
    let v = HandType::FlushFive.base_values();
    assert_eq!((v.base_chips, v.base_mult), (160, 16));
    let v = HandType::HighCard.base_values();
    assert_eq!((v.base_chips, v.base_mult), (5, 1));
    let v = HandType::Straight.base_values();
    assert_eq!((v.base_chips, v.base_mult), (30, 4));
}
