use balatro_core::cards::{Card, Edition, HandType, Rank, Seal, Suit};
use balatro_core::double::Double;
use balatro_core::registry::JokerId;
use balatro_core::run::{Action, BlindStage, Run, RunError, State};
use balatro_core::shop::{PackItem, ShopItemKind};

fn num(x: Double) -> f64 {
    f64::from_bits(x.to_bits())
}

fn card(rank: u8, suit: Suit, sort_id: u32) -> Card {
    Card::new(Rank(rank), suit, sort_id)
}

/// A run in the first round whose hand is four Kings and four low cards.
fn dealt_kings() -> Run {
    let mut run = Run::new("KINGS");
    run.select_blind().unwrap();
    run.hand = vec![
        card(13, Suit::Spades, 101),
        card(13, Suit::Hearts, 102),
        card(13, Suit::Clubs, 103),
        card(13, Suit::Diamonds, 104),
        card(2, Suit::Spades, 105),
        card(5, Suit::Hearts, 106),
        card(7, Suit::Clubs, 107),
        card(9, Suit::Diamonds, 108),
    ];
    run
}

/// A run in its first shop.
fn shopping() -> Run {
    let mut run = dealt_kings();
    run.play(&[0, 1, 2, 3]).unwrap();
    run.cash_out().unwrap();
    run
}

#[test]
fn a_run_starts_at_the_first_blind() {
    let run = Run::new("FRESH");
    assert_eq!(run.state(), State::BlindSelect);
    assert_eq!(run.seed(), "FRESH");
    assert_eq!((run.ante(), run.round(), run.dollars()), (1, 0, 4));
    assert_eq!((run.hands_left(), run.discards_left(), run.hand_size()), (4, 4, 8));
    assert_eq!((run.joker_slots(), run.consumable_slots()), (5, 2));
    assert_eq!((run.deck_len(), run.hand().len(), run.discard_pile_len()), (52, 0, 0));
    assert_eq!(run.blind_on_deck(), BlindStage::Small);
    assert_eq!(run.reroll_cost(), 5);
    assert!(run.current_blind().is_none());
    assert!(run.shop().is_none() && run.pack().is_none() && run.last_play().is_none());
    assert!(run.jokers().is_empty() && run.consumables().is_empty() && run.tags().is_empty());
    assert_eq!(run.most_played_hand(), HandType::HighCard);
    assert!(!run.won());
}

#[test]
fn a_seed_fixes_the_run() {
    let mut a = Run::new("SAME");
    let mut b = Run::new("SAME");
    let mut c = Run::new("OTHER");
    assert_eq!(a.boss_choice(), b.boss_choice());
    assert_eq!(a.blind_tags(), b.blind_tags());
    assert_eq!(a.current_voucher(), b.current_voucher());
    a.select_blind().unwrap();
    b.select_blind().unwrap();
    c.select_blind().unwrap();
    assert_eq!(a.hand(), b.hand());
    assert_eq!(a.deck_cards(), b.deck_cards());
    assert_ne!(a.hand(), c.hand());
}

#[test]
fn selecting_a_blind_deals_a_hand() {
    let mut run = Run::new("DEAL");
    let before: Vec<u32> = {
        let mut ids: Vec<u32> = run.deck_cards().iter().map(|c| c.sort_id).collect();
        ids.sort();
        ids
    };
    run.select_blind().unwrap();
    assert_eq!(run.state(), State::SelectingHand);
    assert_eq!((run.hand().len(), run.deck_len()), (8, 44));
    assert_eq!(run.current_blind().unwrap().key, "bl_small");
    assert_eq!(num(run.blind_chips()), 300.0);
    assert_eq!(run.round(), 1);
    let mut after: Vec<u32> = run
        .hand()
        .iter()
        .chain(run.deck_cards())
        .map(|c| c.sort_id)
        .collect();
    after.sort();
    assert_eq!(before, after);
    assert_eq!(run.select_blind(), Err(RunError::WrongState));
}

#[test]
fn a_pair_of_kings_scores_sixty() {
    let mut run = dealt_kings();
    let r = run.play(&[0, 1]).unwrap();
    assert_eq!(r.hand_type, HandType::Pair);
    assert_eq!((num(r.chips), num(r.mult), num(r.score)), (30.0, 2.0, 60.0));
    assert_eq!(r.scoring, vec![0, 1]);
    assert_eq!(num(run.chips()), 60.0);
    assert_eq!((run.hands_left(), run.hand().len()), (3, 8));
    assert_eq!(run.discard_pile_len(), 2);
    assert_eq!(run.last_hand_played(), Some(HandType::Pair));
    assert_eq!(run.hands_played_this_round(), 1);
    assert_eq!(run.hands_table().get(HandType::Pair).played, 1);
    assert_eq!(run.state(), State::SelectingHand);
}

#[test]
fn jokers_join_the_score() {
    let mut run = dealt_kings();
    run.debug_add_joker(JokerId::Joker, Edition::Plain);
    assert_eq!(num(run.play(&[0, 1]).unwrap().score), 180.0);
    let mut run = dealt_kings();
    run.debug_add_joker(JokerId::Joker, Edition::Holo);
    assert_eq!(num(run.play(&[0, 1]).unwrap().score), 480.0);
    let mut run = dealt_kings();
    run.debug_add_joker(JokerId::Blueprint, Edition::Plain);
    run.debug_add_joker(JokerId::Joker, Edition::Foil);
    let r = run.play(&[0, 1]).unwrap();
    assert_eq!((num(r.chips), num(r.mult)), (80.0, 10.0));
}

#[test]
fn four_kings_beat_the_small_blind() {
    let mut run = dealt_kings();
    let r = run.play(&[0, 1, 2, 3]).unwrap();
    assert_eq!(num(r.score), 700.0);
    assert_eq!(run.state(), State::RoundEval);
    // 3 for the blind and 1 for each of three hands left
    assert_eq!(run.pending_cashout(), 6);
    assert_eq!(run.hand().len(), 0);
    run.cash_out().unwrap();
    assert_eq!(run.state(), State::Shop);
    assert_eq!(run.dollars(), 10);
    assert!(run.small_defeated() && !run.big_defeated());
    let shop = run.shop().unwrap();
    assert_eq!((shop.jokers.len(), shop.vouchers.len(), shop.packs.len()), (2, 1, 2));
    run.leave_shop().unwrap();
    assert_eq!(run.state(), State::BlindSelect);
    assert_eq!(run.blind_on_deck(), BlindStage::Big);
    run.select_blind().unwrap();
    assert_eq!(num(run.blind_chips()), 450.0);
}

#[test]
fn interest_is_a_dollar_for_five_up_to_five() {
    let mut run = dealt_kings();
    run.debug_set_dollars(23);
    run.play(&[0, 1, 2, 3]).unwrap();
    assert_eq!(run.pending_cashout(), 6 + 4);
    let mut run = dealt_kings();
    run.debug_set_dollars(1000);
    run.play(&[0, 1, 2, 3]).unwrap();
    assert_eq!(run.pending_cashout(), 6 + 5);
}

#[test]
fn hands_run_out() {
    let mut run = dealt_kings();
    for _ in 0..4 {
        assert_eq!(run.state(), State::SelectingHand);
        run.hand[7] = card(2, Suit::Clubs, 200);
        run.play(&[7]).unwrap();
    }
    assert_eq!(run.state(), State::GameOver);
    assert!(run.legal_actions().is_empty());
    assert_eq!(run.play(&[0]).unwrap_err(), RunError::WrongState);
    assert_eq!(run.discard(&[0]), Err(RunError::WrongState));
    assert_eq!(run.select_blind(), Err(RunError::WrongState));
    assert_eq!(run.cash_out(), Err(RunError::WrongState));
    assert_eq!(run.sell_joker(0), Err(RunError::WrongState));
}

#[test]
fn discards_draw_again() {
    let mut run = dealt_kings();
    let top: Vec<u32> = run.deck_cards().iter().rev().take(2).map(|c| c.sort_id).collect();
    run.discard(&[4, 6]).unwrap();
    assert_eq!(run.discards_left(), 3);
    assert_eq!(run.hand().len(), 8);
    let gone: Vec<u32> = run.discard_cards().iter().map(|c| c.sort_id).collect();
    assert_eq!(gone, vec![105, 107]);
    for id in top {
        assert!(run.hand().iter().any(|c| c.sort_id == id));
    }
    assert_eq!(run.discards_used_this_round(), 1);
    assert_eq!(run.hands_left(), 4);
}

#[test]
fn selections_are_checked() {
    let mut run = dealt_kings();
    for bad in [&[][..], &[0, 1, 2, 3, 4, 5][..], &[0, 0][..], &[8][..]] {
        assert!(matches!(run.play(bad), Err(RunError::BadCardSelection(_))), "{bad:?}");
        assert!(matches!(run.discard(bad), Err(RunError::BadCardSelection(_))), "{bad:?}");
    }
    assert_eq!(
        run.play(&[0, 0]).unwrap_err().message(),
        "bad card selection: duplicate indices"
    );
    assert_eq!((run.hands_left(), run.discards_left(), run.hand().len()), (4, 4, 8));
    for _ in 0..4 {
        run.discard(&[0]).unwrap();
    }
    assert_eq!(run.discard(&[0]), Err(RunError::NoDiscardsLeft));
}

#[test]
fn messages_say_what_is_wrong() {
    assert_eq!(RunError::WrongState.message(), "action not legal in current state");
    assert_eq!(RunError::NoDiscardsLeft.message(), "no discards left");
    assert_eq!(RunError::InsufficientFunds.message(), "not enough money");
    assert_eq!(RunError::NoSpace.message(), "no space");
    assert_eq!(RunError::BadSlot("joker 3".to_string()).message(), "bad slot: joker 3");
    assert_eq!(
        RunError::CannotUse("not a consumable".to_string()).message(),
        "cannot use: not a consumable"
    );
}

#[test]
fn skipping_brings_the_tag() {
    let mut run = Run::new("SKIP");
    run.force_tag(Some("tag_handy"));
    run.offers.blind_tag_small = "tag_handy";
    assert!(run.legal_actions().contains(&Action::SkipBlind));
    run.skip_blind().unwrap();
    assert_eq!(run.skips(), 1);
    assert!(run.small_skipped());
    assert_eq!(run.blind_on_deck(), BlindStage::Big);
    assert_eq!(run.state(), State::BlindSelect);
    run.skip_blind().unwrap();
    assert_eq!(run.blind_on_deck(), BlindStage::Boss);
    assert_eq!(
        run.skip_blind(),
        Err(RunError::BadSlot("cannot skip the boss".to_string()))
    );
    assert!(!run.legal_actions().contains(&Action::SkipBlind));
}

#[test]
fn the_economy_tag_doubles_the_dollars() {
    let mut run = Run::new("ECON");
    run.debug_set_dollars(17);
    run.offers.blind_tag_small = "tag_economy";
    run.skip_blind().unwrap();
    assert_eq!(run.dollars(), 34);
    run.debug_set_dollars(100);
    run.offers.blind_tag_big = "tag_economy";
    run.skip_blind().unwrap();
    assert_eq!(run.dollars(), 140);
}

#[test]
fn bosses_can_be_set() {
    let mut run = Run::new("BOSS");
    run.force_boss("bl_needle");
    run.skip_blind().unwrap();
    run.skip_blind().unwrap();
    run.state = State::BlindSelect;
    run.pack = None;
    run.select_blind().unwrap();
    assert_eq!(run.current_blind().unwrap().name, "The Needle");
    assert_eq!(run.hands_left(), 1);
    assert_eq!(num(run.blind_chips()), 300.0);
    run.disable_boss();
    assert_eq!(run.hands_left(), 4);
    let once = run.clone();
    run.disable_boss();
    assert_eq!(run.hands_left(), once.hands_left());
    assert!(run.active_blind().unwrap().disabled);
}

#[test]
fn beating_the_boss_moves_to_the_next_ante() {
    let mut run = Run::new("ANTE");
    run.force_boss("bl_wall");
    run.track.blind_on_deck = BlindStage::Boss;
    run.select_blind().unwrap();
    assert_eq!(num(run.blind_chips()), 1200.0);
    for ht in [HandType::FourOfAKind] {
        run.level_up_hand(ht, 30);
    }
    run.hand = (0..8u32)
        .map(|i| card(if i < 4 { 13 } else { i as u8 }, Suit::Spades, 300 + i))
        .collect();
    run.play(&[0, 1, 2, 3]).unwrap();
    assert_eq!(run.state(), State::RoundEval);
    run.cash_out().unwrap();
    assert_eq!(run.ante(), 2);
    assert_eq!(run.blind_on_deck(), BlindStage::Small);
    assert!(!run.small_defeated() && !run.big_defeated());
}

#[test]
fn the_last_boss_wins_the_run() {
    let mut run = Run::new("WIN");
    run.track.ante = 8;
    run.track.blind_ante = 8;
    run.track.blind_on_deck = BlindStage::Boss;
    run.force_boss("bl_final_vessel");
    run.select_blind().unwrap();
    assert_eq!(num(run.blind_chips()), 300000.0);
    run.round.chips = run.blind_chips();
    run.play(&[0]).unwrap();
    assert_eq!(run.state(), State::RoundEval);
    run.cash_out().unwrap();
    assert!(run.won());
    assert_eq!(run.state(), State::Won);
    assert!(run.legal_actions().is_empty());
}

#[test]
fn an_amount_from_outside_sizes_the_blind() {
    let mut run = Run::new("DEEP");
    run.select_blind_asking(Double::from_i64(110000)).unwrap();
    assert_eq!(num(run.blind_chips()), 110000.0);
    assert_eq!(
        run.select_blind_asking(Double::from_i64(1)),
        Err(RunError::WrongState)
    );
}

#[test]
fn listed_actions_are_accepted() {
    let mut run = Run::new("LIST");
    assert_eq!(run.legal_actions(), vec![Action::SelectBlind, Action::SkipBlind]);
    run.select_blind().unwrap();
    assert_eq!(run.legal_actions(), vec![Action::Play, Action::Discard]);
    let mut run = shopping();
    run.debug_set_dollars(100);
    let list = run.legal_actions();
    assert!(list.contains(&Action::Reroll) && list.contains(&Action::LeaveShop));
    for a in list {
        let mut copy = run.clone();
        let r = match a {
            Action::BuyShopItem(i) => copy.buy_shop_item(i),
            Action::RedeemVoucher(i) => copy.redeem_voucher(i),
            Action::BuyPack(i) => copy.buy_pack(i),
            Action::Reroll => copy.reroll_shop(),
            Action::LeaveShop => copy.leave_shop(),
            Action::UseConsumable(i) => copy.use_consumable(i, &[]),
            Action::SellConsumable(i) => copy.sell_consumable(i),
            Action::SellJoker(i) => copy.sell_joker(i),
            _ => Ok(()),
        };
        assert_eq!(r, Ok(()), "{a:?}");
    }
}

#[test]
fn determining_anew_keeps_what_is_known() {
    let mut run = dealt_kings();
    let before = run.clone();
    run.redeterminize("ANEW");
    assert_eq!(run.hand(), before.hand());
    assert_eq!(run.discard_cards(), before.discard_cards());
    assert_eq!(run.dollars(), before.dollars());
    let ids = |r: &Run| {
        let mut v: Vec<u32> = r.deck_cards().iter().map(|c| c.sort_id).collect();
        v.sort();
        v
    };
    assert_eq!(ids(&run), ids(&before));
    assert_ne!(run.deck_cards(), before.deck_cards());
    let mut other = before.clone();
    other.deck.reverse();
    other.redeterminize("ANEW");
    assert_eq!(run.deck_cards(), other.deck_cards());
}

#[test]
fn one_card_can_be_altered() {
    let mut run = dealt_kings();
    run.modify_card(103, |c: Card| Card { seal: Seal::Red, ..c });
    for c in run.hand() {
        assert_eq!(c.seal == Seal::Red, c.sort_id == 103);
    }
    let r = run.play(&[0, 1, 2]).unwrap();
    // three of a kind: 30 + 3 Kings and one again, times 3
    assert_eq!(num(r.score), 210.0);
}

#[test]
fn levels_go_up_and_down() {
    let mut run = dealt_kings();
    run.level_up_hand(HandType::Pair, 2);
    let row = *run.hands_table().get(HandType::Pair);
    assert_eq!((row.level, num(row.chips), num(row.mult)), (3, 40.0, 4.0));
    assert_eq!(num(run.play(&[0, 1]).unwrap().score), 240.0);
    run.level_up_hand(HandType::Pair, -2);
    let row = *run.hands_table().get(HandType::Pair);
    assert_eq!((row.level, num(row.chips), num(row.mult)), (1, 10.0, 2.0));
}

#[test]
fn losing_a_joker_undoes_gaining_it() {
    let mut run = shopping();
    let before = run.hand_size();
    run.debug_add_joker(JokerId::Juggler, Edition::Plain);
    assert_eq!(run.hand_size(), before + 1);
    run.sell_joker(0).unwrap();
    assert_eq!(run.hand_size(), before);
    let slots = run.joker_slots();
    run.debug_add_joker(JokerId::Stuntman, Edition::Negative);
    assert_eq!((run.hand_size(), run.joker_slots()), (before - 2, slots + 1));
    run.sell_joker(0).unwrap();
    assert_eq!((run.hand_size(), run.joker_slots()), (before, slots));
}

/// A run that faces The Needle with so many hands a round.
fn facing_the_needle(hands: i64) -> Run {
    let mut run = Run::new("NEEDLE");
    run.force_boss("bl_needle");
    run.track.blind_on_deck = BlindStage::Boss;
    run.limits.hands = hands;
    run.select_blind().unwrap();
    assert_eq!(run.current_blind().unwrap().name, "The Needle");
    run
}

#[test]
fn the_needle_leaves_one_hand() {
    for hands in [1, 3, 4, 5, 8] {
        let mut run = facing_the_needle(hands);
        assert_eq!(run.hands_left(), 1);
        assert_eq!(run.active_blind().unwrap().hands_sub, hands - 1);
        run.disable_boss();
        assert_eq!(run.hands_left(), hands);
    }
    let mut run = Run::new("NEEDLE");
    run.debug_apply_voucher("v_grabber");
    run.force_boss("bl_needle");
    run.track.blind_on_deck = BlindStage::Boss;
    run.select_blind().unwrap();
    assert_eq!(run.hands_left(), 1);
    run.play(&[0]).unwrap();
    assert_eq!(run.state(), State::GameOver);
}

#[test]
fn blinds_are_sized_by_their_ante() {
    let mut run = Run::new("SIZE");
    run.track.blind_ante = 2;
    run.select_blind().unwrap();
    assert_eq!(num(run.blind_chips()), 800.0);
    let mut run = Run::new("SIZE");
    run.track.ante = 2;
    run.select_blind().unwrap();
    assert_eq!(num(run.blind_chips()), 300.0);
    let mut run = shopping();
    run.debug_apply_voucher("v_hieroglyph");
    assert_eq!((run.track.ante, run.track.blind_ante), (0, 0));
}

/// Every card of a run has a number of its own.
fn assert_numbers_apart(run: &Run) {
    let mut seen = std::collections::HashSet::new();
    for c in run.deck.iter().chain(run.hand.iter()).chain(run.discard_pile.iter()) {
        assert!(c.sort_id <= run.counters.sort_id, "{c:?}");
        assert!(seen.insert(c.sort_id), "{c:?}");
    }
}

#[test]
fn no_two_cards_share_a_number() {
    let mut run = Run::new("NUMBERS");
    assert_numbers_apart(&run);
    run.select_blind().unwrap();
    assert_numbers_apart(&run);
    run.debug_add_joker(JokerId::Certificate, Edition::Plain);
    run.debug_add_joker(JokerId::Dna, Edition::Plain);
    run.discard(&[0, 1]).unwrap();
    run.debug_add_consumable("c_cryptid");
    run.use_consumable(0, &[0]).unwrap();
    assert_numbers_apart(&run);
    run.debug_add_consumable("c_familiar");
    run.use_consumable(0, &[]).unwrap();
    assert_numbers_apart(&run);
    run.level_up_hand(HandType::HighCard, 60);
    let before = run.counters.sort_id;
    run.play(&[0]).unwrap();
    assert!(run.counters.sort_id > before);
    assert_numbers_apart(&run);
    run.cash_out().unwrap();
    run.debug_set_dollars(100);
    run.debug_apply_voucher("v_magic_trick");
    for _ in 0..6 {
        run.debug_set_dollars(100);
        run.reroll_shop().unwrap();
        for i in (0..run.shop().unwrap().jokers.len()).rev() {
            let _ = run.buy_shop_item(i);
        }
        assert_numbers_apart(&run);
    }
    run.leave_shop().unwrap();
    assert_numbers_apart(&run);
    run.redeterminize("AGAIN");
    assert_numbers_apart(&run);
}

#[test]
fn numbers_stay_at_the_last_one() {
    let mut run = Run::new("LAST");
    run.counters.sort_id = u32::MAX - 1;
    run.debug_add_consumable("c_pluto");
    run.debug_add_consumable("c_mars");
    assert_eq!(run.counters.sort_id, u32::MAX);
    assert_eq!(run.consumables()[0].sort_id, run.consumables()[1].sort_id);
}

#[test]
fn what_is_gone_is_not_in_use() {
    let mut run = shopping();
    assert_eq!(run.used_keys.get("j_egg"), None);
    run.debug_add_joker(JokerId::Egg, Edition::Plain);
    run.debug_add_joker(JokerId::Egg, Edition::Plain);
    assert_eq!(run.used_keys.get("j_egg"), Some(2));
    run.sell_joker(0).unwrap();
    assert_eq!(run.used_keys.get("j_egg"), Some(1));
    run.sell_joker(0).unwrap();
    assert_eq!(run.used_keys.get("j_egg"), None);
    assert!(!run.used_keys.contains("j_egg"));
    run.debug_add_consumable("c_hermit");
    assert_eq!(run.used_keys.get("c_hermit"), Some(1));
    run.use_consumable(0, &[]).unwrap();
    assert!(!run.used_keys.contains("c_hermit"));
    run.leave_shop().unwrap();
    let stored = balatro_core::snapshot::stored(&run.used_keys);
    assert!(stored.iter().all(|(_, n)| *n > 0));
}

/// What is in use is what is there: jokers, consumables, what the shop and an
/// open pack hold.
fn assert_counted(run: &Run) {
    let mut count = std::collections::BTreeMap::new();
    let mut add = |key: &str| *count.entry(key.to_string()).or_insert(0u32) += 1;
    for j in run.jokers() {
        add(j.id.key());
    }
    for c in run.consumables() {
        add(c.key);
    }
    if let Some(shop) = run.shop() {
        for item in &shop.jokers {
            match &item.kind {
                ShopItemKind::Joker(j) => add(j.id.key()),
                ShopItemKind::Consumable(c) => add(c.key),
                ShopItemKind::PlayingCard(_) => {}
            }
        }
        for v in &shop.vouchers {
            add(v.key);
        }
    }
    if let Some(pack) = run.pack() {
        for item in &pack.items {
            match item {
                PackItem::Joker(j) => add(j.id.key()),
                PackItem::Consumable(c) => add(c.key),
                PackItem::PlayingCard(_) => {}
            }
        }
    }
    let list: Vec<(String, u32)> = count.into_iter().collect();
    assert_eq!(balatro_core::snapshot::stored(&run.used_keys), list);
}

#[test]
fn what_is_in_use_is_counted() {
    for seed in ["COUNT", "STOCK", "SHELF"] {
        let mut run = Run::new(seed);
        assert_counted(&run);
        run.select_blind().unwrap();
        run.level_up_hand(HandType::HighCard, 60);
        run.debug_add_joker(JokerId::RiffRaff, Edition::Plain);
        run.play(&[0]).unwrap();
        assert_counted(&run);
        run.cash_out().unwrap();
        assert_counted(&run);
        run.debug_set_dollars(200);
        run.reroll_shop().unwrap();
        assert_counted(&run);
        run.redeem_voucher(0).unwrap();
        assert_counted(&run);
        run.buy_shop_item(0).unwrap();
        assert_counted(&run);
        run.buy_pack(0).unwrap();
        assert_counted(&run);
        if run.pick_pack_item(0, &[]).is_err() {
            run.skip_pack().unwrap();
        }
        assert_counted(&run);
        run.sell_joker(0).unwrap();
        assert_counted(&run);
        run.debug_add_consumable("c_emperor");
        let last = run.consumables().len() - 1;
        let _ = run.use_consumable(last, &[]);
        assert_counted(&run);
        if run.state() == State::PackOpen {
            run.skip_pack().unwrap();
        }
        run.leave_shop().unwrap();
        assert_counted(&run);
        run.select_blind().unwrap();
        assert_counted(&run);
    }
}
