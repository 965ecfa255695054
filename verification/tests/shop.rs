use balatro_core::cards::{Card, Edition, Rank, Suit};
use balatro_core::items::{edition_extra_cost, item_cost, sell_cost};
use balatro_core::registry::JokerId;
use balatro_core::run::{Action, Run, RunError, State};
use balatro_core::shop::{
    OwnedConsumable, PackItem, PackOffer, PackReturn, ShopItem, ShopItemKind, VoucherOffer,
};

fn shopping(seed: &str) -> Run {
    let mut run = Run::new(seed);
    run.select_blind().unwrap();
    run.hand = (0..8u32)
        .map(|i| {
            let rank = if i < 4 { 13 } else { i as u8 };
            Card::new(Rank(rank), Suit::Clubs, 100 + i)
        })
        .collect();
    run.play(&[0, 1, 2, 3]).unwrap();
    run.cash_out().unwrap();
    assert_eq!(run.state(), State::Shop);
    run
}

fn consumable(key: &'static str) -> ShopItem {
    ShopItem {
        kind: ShopItemKind::Consumable(OwnedConsumable {
            key,
            sort_id: 900,
            negative: false,
            extra_value: 0,
        }),
        couponed: false,
    }
}

#[test]
fn prices() {
    assert_eq!(edition_extra_cost(Edition::Plain), 0);
    assert_eq!(edition_extra_cost(Edition::Foil), 2);
    assert_eq!(edition_extra_cost(Edition::Holo), 3);
    assert_eq!(edition_extra_cost(Edition::Polychrome), 5);
    assert_eq!(edition_extra_cost(Edition::Negative), 5);
    assert_eq!(item_cost(5, Edition::Plain, 0, false), 5);
    assert_eq!(item_cost(5, Edition::Foil, 0, false), 7);
    assert_eq!(item_cost(5, Edition::Plain, 25, false), 4);
    assert_eq!(item_cost(5, Edition::Plain, 50, false), 2);
    assert_eq!(item_cost(5, Edition::Plain, 50, true), 0);
    assert_eq!(item_cost(0, Edition::Plain, 0, false), 1);
    assert_eq!(sell_cost(5, Edition::Plain, 0, 0), 2);
    assert_eq!(sell_cost(1, Edition::Plain, 0, 0), 1);
    assert_eq!(sell_cost(5, Edition::Plain, 0, 3), 5);
    assert_eq!(sell_cost(5, Edition::Foil, 0, 3), 6);
    assert_eq!(sell_cost(1, Edition::Plain, 0, 0), 1);
    assert_eq!(sell_cost(8, Edition::Negative, 25, 0), 5);
}

#[test]
fn the_first_pack_of_a_run_is_a_buffoon_pack() {
    let run = shopping("FIRST");
    assert!(run.shop().unwrap().packs[0].key.starts_with("p_buffoon_normal"));
}

#[test]
fn buying_a_tarot_and_using_it() {
    let mut run = shopping("TAROT");
    run.debug_set_dollars(10);
    run.shop.as_mut().unwrap().jokers[0] = consumable("c_hermit");
    let item = run.shop().unwrap().jokers[0];
    assert_eq!(run.shop_item_cost(&item), 3);
    run.buy_shop_item(0).unwrap();
    assert_eq!(run.dollars(), 7);
    assert_eq!(run.consumables().len(), 1);
    assert_eq!(run.shop().unwrap().jokers.len(), 1);
    run.use_consumable(0, &[]).unwrap();
    assert_eq!(run.dollars(), 14);
    assert!(run.consumables().is_empty());
    assert_eq!(run.tarots_used(), 1);
    run.shop.as_mut().unwrap().jokers[0] = consumable("c_hermit");
    run.debug_set_dollars(50);
    run.buy_and_use_shop_item(0, &[]).unwrap();
    assert_eq!(run.dollars(), 67);
}

#[test]
fn purchases_are_refused() {
    let mut run = shopping("REFUSE");
    assert_eq!(
        run.buy_shop_item(9),
        Err(RunError::BadSlot("shop slot 9".to_string()))
    );
    assert_eq!(
        run.redeem_voucher(9),
        Err(RunError::BadSlot("voucher slot 9".to_string()))
    );
    assert_eq!(run.buy_pack(9), Err(RunError::BadSlot("pack slot 9".to_string())));
    assert_eq!(run.sell_joker(0), Err(RunError::BadSlot("joker 0".to_string())));
    assert_eq!(
        run.sell_consumable(2),
        Err(RunError::BadSlot("consumable 2".to_string()))
    );
    run.debug_set_dollars(0);
    assert_eq!(run.buy_shop_item(0), Err(RunError::InsufficientFunds));
    assert_eq!(run.redeem_voucher(0), Err(RunError::InsufficientFunds));
    assert_eq!(run.buy_pack(0), Err(RunError::InsufficientFunds));
    assert_eq!(run.reroll_shop(), Err(RunError::InsufficientFunds));
    run.debug_set_dollars(100);
    run.shop.as_mut().unwrap().jokers[0] = consumable("c_fool");
    run.debug_add_consumable("c_pluto");
    run.debug_add_consumable("c_mars");
    assert_eq!(run.buy_shop_item(0), Err(RunError::NoSpace));
    assert!(matches!(
        run.buy_and_use_shop_item(0, &[]),
        Err(RunError::CannotUse(_))
    ));
    assert_eq!(run.dollars(), 100);
    assert_eq!(run.shop().unwrap().jokers.len(), 2);
}

#[test]
fn a_full_row_takes_no_joker_but_a_negative_one() {
    let mut run = shopping("ROW");
    for _ in 0..5 {
        run.debug_add_joker(JokerId::Joker, Edition::Plain);
    }
    run.debug_set_dollars(100);
    let mut j = run.jokers()[0];
    j.sort_id = 901;
    run.shop.as_mut().unwrap().jokers[0] = ShopItem { kind: ShopItemKind::Joker(j), couponed: false };
    assert_eq!(run.buy_shop_item(0), Err(RunError::NoSpace));
    j.edition = Edition::Negative;
    run.shop.as_mut().unwrap().jokers[0] = ShopItem { kind: ShopItemKind::Joker(j), couponed: false };
    run.buy_shop_item(0).unwrap();
    assert_eq!((run.jokers().len(), run.joker_slots()), (6, 6));
}

#[test]
fn selling_pays_half() {
    let mut run = shopping("SELL");
    run.debug_add_joker(JokerId::Blueprint, Edition::Plain);
    let j = run.jokers()[0];
    assert_eq!(run.joker_sell_value(&j), 5);
    let before = run.dollars();
    run.sell_joker(0).unwrap();
    assert_eq!(run.dollars(), before + 5);
    run.debug_add_consumable("c_soul");
    let c = run.consumables()[0];
    let value = run.consumable_sell_value(&c);
    run.sell_consumable(0).unwrap();
    assert_eq!(run.dollars(), before + 5 + value);
}

#[test]
fn rerolls_cost_more_each_time() {
    let mut run = shopping("AGAIN");
    run.debug_set_dollars(100);
    assert_eq!(run.reroll_cost(), 5);
    run.reroll_shop().unwrap();
    assert_eq!((run.dollars(), run.reroll_cost()), (95, 6));
    run.reroll_shop().unwrap();
    assert_eq!((run.dollars(), run.reroll_cost()), (89, 7));
    assert_eq!(run.shop().unwrap().jokers.len(), 2);
    run.leave_shop().unwrap();
    assert!(run.shop().is_none());
    assert_eq!(run.reroll_shop(), Err(RunError::WrongState));
}

#[test]
fn vouchers_take_effect_at_once() {
    let mut run = shopping("VOUCHER");
    run.debug_set_dollars(100);
    run.shop.as_mut().unwrap().vouchers[0] =
        VoucherOffer { key: "v_grabber", sort_id: 902, shop_voucher: true };
    assert_eq!(run.voucher_cost("v_grabber"), 10);
    let hands = run.limits.hands;
    run.redeem_voucher(0).unwrap();
    assert_eq!(run.limits.hands, hands + 1);
    assert_eq!(run.dollars(), 90);
    assert!(run.used_vouchers().contains("v_grabber"));
    assert!(run.shop().unwrap().vouchers.is_empty());
    run.debug_apply_voucher("v_clearance_sale");
    let item = consumable("c_hermit");
    assert_eq!(run.shop_item_cost(&item), 2);
    run.debug_apply_voucher("v_overstock_norm");
    assert_eq!(run.shop().unwrap().jokers.len(), 3);
    run.debug_apply_voucher("v_crystal_ball");
    assert_eq!(run.consumable_slots(), 3);
}

#[test]
fn a_pack_is_opened_and_chosen_from() {
    let mut run = shopping("PACK");
    run.debug_set_dollars(50);
    run.shop.as_mut().unwrap().packs[0] = PackOffer {
        key: "p_celestial_normal_1",
        sort_id: 903,
        used: false,
        couponed: false,
    };
    let offer = run.shop().unwrap().packs[0];
    assert_eq!(run.pack_cost(&offer), 4);
    run.buy_pack(0).unwrap();
    assert_eq!(run.state(), State::PackOpen);
    assert_eq!(run.dollars(), 46);
    let pack = run.pack().unwrap();
    assert_eq!((pack.items.len(), pack.choices_left), (3, 1));
    assert_eq!(pack.return_to, PackReturn::Shop);
    assert!(!pack.hand_dealt);
    assert_eq!(
        run.pick_pack_item(9, &[]),
        Err(RunError::BadSlot("pack item 9".to_string()))
    );
    let place = (0..3).find(|&i| run.can_pick_pack_item(i)).unwrap();
    assert!(run.legal_actions().contains(&Action::PickPackItem(place)));
    run.pick_pack_item(place, &[]).unwrap();
    assert_eq!(run.state(), State::Shop);
    assert!(run.pack().is_none());
    assert_eq!(
        run.buy_pack(0),
        Err(RunError::BadSlot("pack already opened".to_string()))
    );
}

#[test]
fn a_tarot_pack_deals_a_hand_and_takes_it_back() {
    let mut run = shopping("ARCANA");
    run.debug_set_dollars(50);
    run.shop.as_mut().unwrap().packs[0] = PackOffer {
        key: "p_arcana_mega_1",
        sort_id: 904,
        used: false,
        couponed: false,
    };
    let cards = run.deck_len();
    run.buy_pack(0).unwrap();
    assert!(run.pack().unwrap().hand_dealt);
    assert_eq!((run.hand().len(), run.deck_len()), (8, cards - 8));
    assert_eq!((run.pack().unwrap().items.len(), run.pack().unwrap().choices_left), (5, 2));
    run.skip_pack().unwrap();
    assert_eq!((run.hand().len(), run.deck_len()), (0, cards));
    assert_eq!(run.state(), State::Shop);
    assert_eq!(run.skip_pack(), Err(RunError::WrongState));
}

#[test]
fn a_standard_pack_gives_a_card() {
    let mut run = shopping("STANDARD");
    run.debug_set_dollars(50);
    run.shop.as_mut().unwrap().packs[0] = PackOffer {
        key: "p_standard_normal_1",
        sort_id: 905,
        used: false,
        couponed: true,
    };
    let cards = run.deck_len();
    run.buy_pack(0).unwrap();
    assert_eq!(run.dollars(), 50);
    assert!(run.pack().unwrap().items.iter().all(|i| matches!(i, PackItem::PlayingCard(_))));
    run.pick_pack_item(0, &[]).unwrap();
    assert_eq!(run.deck_len(), cards + 1);
}

#[test]
fn perkeo_copies_a_consumable_on_leaving() {
    let mut run = shopping("PERKEO");
    run.debug_add_joker(JokerId::Perkeo, Edition::Plain);
    run.debug_add_consumable("c_pluto");
    run.leave_shop().unwrap();
    let keys: Vec<&str> = run.consumables().iter().map(|c| c.key).collect();
    assert_eq!(keys, vec!["c_pluto", "c_pluto"]);
    assert!(run.consumables()[1].negative && !run.consumables()[0].negative);
    assert_eq!(run.consumable_slots(), 3);
}

#[test]
fn prices_are_whole_numbers() {
    let editions = [
        Edition::Plain,
        Edition::Foil,
        Edition::Holo,
        Edition::Polychrome,
        Edition::Negative,
    ];
    for base in (0..40).chain(999_980..=1_000_000) {
        for edition in editions {
            for discount in 0..=100 {
                let full = base + edition_extra_cost(edition);
                let price = (((2 * full + 1) * (100 - discount)) / 200).max(1);
                assert_eq!(item_cost(base, edition, discount, false), price);
                assert_eq!(sell_cost(base, edition, discount, -7), (price / 2).max(1) - 7);
                let by_hardware = ((full as f64 + 0.5) * (100 - discount) as f64 / 100.0).floor();
                assert_eq!(price, (by_hardware as i64).max(1));
            }
        }
    }
}

/// A shop whose first pack holds Tarot or Planet cards.
fn offering(pack: &'static str) -> Run {
    let mut run = shopping("SOUL");
    run.debug_set_dollars(50);
    run.shop.as_mut().unwrap().packs[0].key = pack;
    run
}

#[test]
fn the_soul_is_polled_unless_it_has_an_entry() {
    for (pack, stream, key) in [
        ("p_arcana_normal_1", "soul_Tarot1", "c_soul"),
        ("p_celestial_normal_1", "soul_Planet1", "c_black_hole"),
    ] {
        let mut run = offering(pack);
        run.buy_pack(0).unwrap();
        assert!(run.rng.states().contains(stream));
        for count in [0, 1, 2] {
            let mut run = offering(pack);
            run.used_keys.insert(key, count);
            run.buy_pack(0).unwrap();
            assert!(!run.rng.states().contains(stream));
        }
    }
}
