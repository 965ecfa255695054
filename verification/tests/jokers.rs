use balatro_core::cards::{Card, Edition, Enhancement, HandType, Rank, Suit};
use balatro_core::double::Double;
use balatro_core::jokers::{resolve_effective, JokerState};
use balatro_core::registry::JokerId;
use balatro_core::run::{Run, State};
use balatro_core::shop::OwnedJoker;

fn num(x: Double) -> f64 {
    f64::from_bits(x.to_bits())
}

/// A run in the first round with jokers and a hand of ranks, in mixed suits.
fn table(jokers: &[JokerId], ranks: &[u8]) -> Run {
    let mut run = Run::new("JOKERS");
    run.select_blind().unwrap();
    run.hand = ranks
        .iter()
        .enumerate()
        .map(|(i, r)| Card::new(Rank(*r), Suit::ALL[i % 4], 500 + i as u32))
        .collect();
    for id in jokers {
        run.debug_add_joker(*id, Edition::Plain);
    }
    run.round.active_blind.as_mut().unwrap().chips = Double::from_i64(1_000_000_000);
    run
}

fn joker(id: JokerId) -> OwnedJoker {
    OwnedJoker {
        id,
        edition: Edition::Plain,
        sort_id: 1,
        extra_value: 0,
        debuffed: false,
        flipped: false,
        eternal: false,
        hands_at_create: 0,
        state: JokerState::initial(id),
    }
}

#[test]
fn copies_end_at_an_acting_joker() {
    let row = vec![
        joker(JokerId::Blueprint),
        joker(JokerId::Brainstorm),
        joker(JokerId::Joker),
    ];
    assert_eq!(resolve_effective(&row, 2), Some((2, false)));
    // the Brainstorm copies the Blueprint, which copies the Brainstorm
    assert_eq!(resolve_effective(&row, 0), None);
    assert_eq!(resolve_effective(&row, 1), None);
    let row = vec![joker(JokerId::Joker), joker(JokerId::Brainstorm), joker(JokerId::Blueprint)];
    assert_eq!(resolve_effective(&row, 1), Some((0, true)));
    assert_eq!(resolve_effective(&row, 2), None);
    let row = vec![joker(JokerId::Blueprint), joker(JokerId::Brainstorm)];
    assert_eq!(resolve_effective(&row, 0), None);
}

#[test]
fn suit_and_type_jokers() {
    let mut run = table(&[JokerId::Jolly], &[5, 5, 9]);
    assert_eq!(num(run.play(&[0, 1]).unwrap().score), 20.0 * 10.0);
    let mut run = table(&[JokerId::Sly], &[5, 5, 9]);
    assert_eq!(num(run.play(&[0, 1]).unwrap().score), 70.0 * 2.0);
    let mut run = table(&[JokerId::Duo], &[5, 5, 9]);
    assert_eq!(num(run.play(&[0, 1]).unwrap().score), 20.0 * 4.0);
    // the first card is a Spade, the third a Club, the fourth a Diamond
    let mut run = table(&[JokerId::GreedyJoker], &[5, 9, 2, 13]);
    assert_eq!(num(run.play(&[3]).unwrap().score), 15.0 * 4.0);
    let mut run = table(&[JokerId::GreedyJoker], &[5, 9, 2, 13]);
    assert_eq!(num(run.play(&[0]).unwrap().score), 10.0);
}

#[test]
fn retriggers() {
    let mut run = table(&[JokerId::Hack], &[5, 5, 9]);
    assert_eq!(num(run.play(&[0, 1]).unwrap().score), 30.0 * 2.0);
    let mut run = table(&[JokerId::HangingChad], &[5, 5, 9]);
    assert_eq!(num(run.play(&[0, 1]).unwrap().score), 30.0 * 2.0);
    let mut run = table(&[JokerId::Photograph], &[13, 13, 9]);
    assert_eq!(num(run.play(&[0, 1]).unwrap().score), 30.0 * 4.0);
}

#[test]
fn held_cards_count() {
    let mut run = table(&[JokerId::Baron], &[2, 13, 13]);
    let r = run.play(&[0]).unwrap();
    assert_eq!(num(r.mult), 2.25);
    let mut run = table(&[JokerId::RaisedFist], &[9, 3, 8]);
    let r = run.play(&[0]).unwrap();
    assert_eq!(num(r.mult), 7.0);
    let mut run = table(&[JokerId::Baron, JokerId::Mime], &[2, 13]);
    let r = run.play(&[0]).unwrap();
    assert_eq!(num(r.mult), 2.25);
}

#[test]
fn counters_grow() {
    let mut run = table(&[JokerId::RideTheBus], &[2, 3, 4, 5]);
    run.play(&[0]).unwrap();
    assert_eq!(num(run.jokers()[0].state.mult), 1.0);
    run.hand = vec![Card::new(Rank(12), Suit::Hearts, 600)];
    run.play(&[0]).unwrap();
    assert_eq!(num(run.jokers()[0].state.mult), 0.0);
    let mut run = table(&[JokerId::GreenJoker], &[2, 3, 4, 5]);
    run.play(&[0]).unwrap();
    assert_eq!(num(run.jokers()[0].state.mult), 1.0);
    run.discard(&[0]).unwrap();
    assert_eq!(num(run.jokers()[0].state.mult), 0.0);
    let mut run = table(&[JokerId::IceCream], &[2, 3, 4, 5]);
    assert_eq!(num(run.jokers()[0].state.chips), 100.0);
    let r = run.play(&[0]).unwrap();
    assert_eq!(num(r.chips), 107.0);
    assert_eq!(num(run.jokers()[0].state.chips), 95.0);
}

#[test]
fn splash_makes_every_card_score() {
    let mut run = table(&[JokerId::Splash], &[5, 5, 9]);
    let r = run.play(&[0, 1, 2]).unwrap();
    assert_eq!(r.scoring, vec![0, 1, 2]);
    assert_eq!(num(r.score), 29.0 * 2.0);
}

#[test]
fn pareidolia_and_the_face_jokers() {
    let mut run = table(&[JokerId::ScaryFace], &[5, 9]);
    assert_eq!(num(run.play(&[1]).unwrap().chips), 14.0);
    let mut run = table(&[JokerId::ScaryFace, JokerId::Pareidolia], &[5, 9]);
    assert_eq!(num(run.play(&[1]).unwrap().chips), 44.0);
}

#[test]
fn four_fingers_changes_what_is_a_flush() {
    let mut run = table(&[JokerId::FourFingers], &[2, 5, 7, 9]);
    for c in run.hand.iter_mut() {
        c.suit = Suit::Hearts;
    }
    assert!(run.eval_mods().four_fingers);
    assert_eq!(run.play(&[0, 1, 2, 3]).unwrap().hand_type, HandType::Flush);
}

#[test]
fn dna_copies_the_first_lone_card() {
    let mut run = table(&[JokerId::Dna], &[9, 2, 3]);
    let total = run.deck_len() + run.hand().len();
    run.play(&[0]).unwrap();
    let nines = run.hand().iter().filter(|c| c.rank == Rank(9) && c.suit == Suit::Spades).count();
    assert!(nines >= 1);
    assert_eq!(run.deck_len() + run.hand().len() + run.discard_pile_len(), total + 1);
}

#[test]
fn vampire_drinks_enhancements() {
    let mut run = table(&[JokerId::Vampire], &[9, 2, 3]);
    run.hand[0].enhancement = Enhancement::Bonus;
    let r = run.play(&[0]).unwrap();
    assert_eq!(num(run.jokers()[0].state.x_mult), 1.1);
    assert_eq!(num(r.chips), 14.0);
    assert_eq!(run.discard_cards()[0].enhancement, Enhancement::Plain);
}

#[test]
fn bones_save_a_lost_round() {
    let mut run = table(&[JokerId::MrBones], &[9, 2, 3]);
    run.round.active_blind.as_mut().unwrap().chips = Double::from_i64(50);
    run.round.hands_left = 1;
    run.play(&[0]).unwrap();
    assert_eq!(run.state(), State::RoundEval);
    assert!(run.jokers().is_empty());
}

#[test]
fn chicot_disables_the_boss() {
    let mut run = Run::new("CHICOT");
    run.debug_add_joker(JokerId::Chicot, Edition::Plain);
    run.force_boss("bl_needle");
    run.track.blind_on_deck = balatro_core::run::BlindStage::Boss;
    run.select_blind().unwrap();
    assert!(run.active_blind().unwrap().disabled);
    assert_eq!(run.hands_left(), 4);
}

#[test]
fn oops_doubles_the_chances() {
    let mut run = Run::new("OOPS");
    assert_eq!(num(run.rates.prob_normal), 1.0);
    run.debug_add_joker(JokerId::Oops, Edition::Plain);
    run.debug_add_joker(JokerId::Oops, Edition::Plain);
    assert_eq!(num(run.rates.prob_normal), 4.0);
}

#[test]
fn a_joker_can_be_altered() {
    let mut run = table(&[JokerId::IceCream], &[9, 2, 3]);
    run.debug_joker_mut(0).state.chips = Double::from_i64(5);
    run.play(&[0]).unwrap();
    assert!(run.jokers().is_empty());
}
