use balatro_core::blinds::{boss_by_key, ActiveBlind};
use balatro_core::cards::{Card, Edition, Enhancement, HandType, Rank, Seal, Suit};
use balatro_core::double::Double;
use balatro_core::handeval::EvalMods;
use balatro_core::rng::RngState;
use balatro_core::scoring::{
    evaluate_held_at_round_end, evaluate_play, HandsTable, NoJokers, PlayResult, ScoreContext,
};

fn num(x: Double) -> f64 {
    f64::from_bits(x.to_bits())
}

fn card(rank: u8, suit: Suit) -> Card {
    Card::new(Rank(rank), suit, 1)
}

fn context() -> ScoreContext {
    ScoreContext {
        hands: HandsTable::new(),
        dollars: 10,
        blind: None,
        most_played: HandType::HighCard,
        mods: EvalMods { four_fingers: false, shortcut: false, smeared: false },
        prob_normal: Double::from_i64(1),
    }
}

fn scored(ctx: &mut ScoreContext, play: Vec<Card>, held: Vec<Card>) -> PlayResult {
    let mut play = play;
    let mut held = held;
    evaluate_play(ctx, &mut play, &mut held, &mut RngState::new("SCORE"), &mut NoJokers)
}

#[test]
fn the_table_starts_at_level_one() {
    let t = HandsTable::new();
    let row = t.get(HandType::StraightFlush);
    assert_eq!((row.level, num(row.chips), num(row.mult), row.played), (1, 100.0, 8.0, 0));
    assert!(row.visible);
    assert!(!t.get(HandType::FlushFive).visible);
}

#[test]
fn levels_add_their_step() {
    let mut t = HandsTable::new();
    t.level_up(HandType::Flush, 3);
    let row = *t.get(HandType::Flush);
    assert_eq!((row.level, num(row.chips), num(row.mult)), (4, 80.0, 10.0));
    assert_eq!(t.get(HandType::Pair).level, 1);
    t.level_up(HandType::Flush, -9);
    let row = *t.get(HandType::Flush);
    assert_eq!((row.level, num(row.chips), num(row.mult)), (0, 20.0, 2.0));
}

#[test]
fn only_the_cards_of_the_hand_score() {
    let mut ctx = context();
    let r = scored(
        &mut ctx,
        vec![card(5, Suit::Spades), card(14, Suit::Hearts), card(5, Suit::Clubs)],
        Vec::new(),
    );
    assert_eq!(r.hand_type, HandType::Pair);
    assert_eq!(r.scoring, vec![0, 2]);
    assert_eq!((num(r.chips), num(r.mult), num(r.score)), (20.0, 2.0, 40.0));
    assert!(!r.debuffed_hand && r.destroyed.is_empty());
    assert_eq!(ctx.hands.get(HandType::Pair).played, 1);
    assert_eq!(ctx.hands.get(HandType::Pair).played_this_round, 1);
}

#[test]
fn enhancements_score() {
    let mut ctx = context();
    let glass = Card { enhancement: Enhancement::Mult, ..card(10, Suit::Hearts) };
    let r = scored(&mut ctx, vec![glass], Vec::new());
    assert_eq!(num(r.score), 15.0 * 5.0);
    let bonus = Card { enhancement: Enhancement::Bonus, ..card(10, Suit::Hearts) };
    assert_eq!(num(scored(&mut ctx, vec![bonus], Vec::new()).score), 45.0);
    let glass = Card { enhancement: Enhancement::Glass, ..card(10, Suit::Hearts) };
    assert_eq!(num(scored(&mut ctx, vec![glass], Vec::new()).score), 30.0);
    let stone = Card { enhancement: Enhancement::Stone, ..card(10, Suit::Hearts) };
    let r = scored(&mut ctx, vec![card(2, Suit::Clubs), stone], Vec::new());
    assert_eq!(r.scoring, vec![0, 1]);
    assert_eq!(num(r.score), 57.0);
    let poly = Card { edition: Edition::Polychrome, ..card(10, Suit::Hearts) };
    assert_eq!(num(scored(&mut ctx, vec![poly], Vec::new()).score), 22.0);
}

#[test]
fn seals_repeat_and_pay() {
    let mut ctx = context();
    let red = Card { seal: Seal::Red, ..card(10, Suit::Hearts) };
    assert_eq!(num(scored(&mut ctx, vec![red], Vec::new()).score), 25.0);
    let gold = Card { seal: Seal::Gold, ..card(10, Suit::Hearts) };
    let r = scored(&mut ctx, vec![gold], Vec::new());
    assert_eq!(r.dollars_delta, 3);
    assert_eq!(ctx.dollars, 13);
}

#[test]
fn steel_multiplies_from_the_hand() {
    let mut ctx = context();
    let steel = Card { enhancement: Enhancement::Steel, ..card(3, Suit::Hearts) };
    let r = scored(&mut ctx, vec![card(10, Suit::Hearts)], vec![steel, steel]);
    assert_eq!(num(r.mult), 2.25);
    assert_eq!(num(r.score), 33.0);
}

#[test]
fn debuffed_cards_give_nothing() {
    let mut ctx = context();
    let off = Card { debuff: true, enhancement: Enhancement::Mult, ..card(10, Suit::Hearts) };
    assert_eq!(num(scored(&mut ctx, vec![off], Vec::new()).score), 5.0);
}

#[test]
fn refused_hands_score_nothing() {
    let mut ctx = context();
    ctx.blind = Some(ActiveBlind::new(boss_by_key("bl_psychic"), 1));
    let r = scored(&mut ctx, vec![card(10, Suit::Hearts)], Vec::new());
    assert!(r.debuffed_hand);
    assert_eq!((num(r.chips), num(r.mult), num(r.score)), (0.0, 0.0, 0.0));
    assert_eq!(ctx.hands.get(HandType::HighCard).played, 1);
}

#[test]
fn glass_may_break() {
    let glass = Card { enhancement: Enhancement::Glass, ..card(10, Suit::Hearts) };
    let mut ctx = context();
    ctx.prob_normal = Double::from_i64(4);
    let r = scored(&mut ctx, vec![glass, card(2, Suit::Clubs)], Vec::new());
    assert_eq!(r.destroyed, vec![0]);
    ctx.prob_normal = Double::from_i64(0);
    let r = scored(&mut ctx, vec![glass], Vec::new());
    assert!(r.destroyed.is_empty());
}

#[test]
fn gold_cards_pay_and_blue_seals_make_planets() {
    let gold = Card { enhancement: Enhancement::Gold, ..card(10, Suit::Hearts) };
    let blue = Card { seal: Seal::Blue, ..card(9, Suit::Hearts) };
    let mut rng = RngState::new("HELD");
    let mut dollars: i64 = 0;
    let hand = vec![gold, blue, gold, blue, blue];
    let planets = evaluate_held_at_round_end(&hand, 2, &mut dollars, &mut rng, &mut NoJokers);
    assert_eq!((dollars, planets), (6, 2));
}

#[test]
fn rounds_forget_their_hands() {
    let mut ctx = context();
    scored(&mut ctx, vec![card(10, Suit::Hearts)], Vec::new());
    ctx.hands.reset_played_this_round();
    let row = ctx.hands.get(HandType::HighCard);
    assert_eq!((row.played, row.played_this_round), (1, 0));
    ctx.hands.get_mut(HandType::HighCard).played = 7;
    assert_eq!(ctx.hands.get(HandType::HighCard).played, 7);
}

#[test]
fn scoring_places_ascend_and_hold_the_stones() {
    let mut ctx = context();
    let stone = Card { enhancement: Enhancement::Stone, ..card(10, Suit::Hearts) };
    let r = scored(
        &mut ctx,
        vec![card(2, Suit::Clubs), stone, card(13, Suit::Spades), stone, card(13, Suit::Hearts)],
        Vec::new(),
    );
    assert_eq!(r.hand_type, HandType::Pair);
    assert_eq!(r.scoring, vec![1, 2, 3, 4]);
    let r = scored(
        &mut ctx,
        vec![
            card(14, Suit::Clubs),
            card(5, Suit::Spades),
            card(3, Suit::Hearts),
            card(2, Suit::Clubs),
            card(4, Suit::Diamonds),
        ],
        Vec::new(),
    );
    assert_eq!(r.hand_type, HandType::Straight);
    assert_eq!(r.scoring, vec![0, 1, 2, 3, 4]);
    let r = scored(
        &mut ctx,
        vec![
            card(9, Suit::Clubs),
            card(4, Suit::Spades),
            card(9, Suit::Hearts),
            card(4, Suit::Clubs),
            card(9, Suit::Diamonds),
        ],
        Vec::new(),
    );
    assert_eq!(r.hand_type, HandType::FullHouse);
    assert_eq!(r.scoring, vec![0, 1, 2, 3, 4]);
}
