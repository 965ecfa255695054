use balatro_core::cards::{Card, Edition, Enhancement, HandType, Rank, Suit};
use balatro_core::double::Double;
use balatro_core::items::{
    booster_by_key, card_front_from_index, center_base_cost, consumable_by_key, element_index,
    enhancement_from_key, get_current_pool, get_pack_roll, hand_for_planet, joker_by_key,
    planet_softlocked, poll_edition, pool_draw, roll_from_pool, tag_by_key, voucher_by_key,
    ConsumableSet, PoolArgs, PoolSpec,
};
use balatro_core::keymap::KeyMap;
use balatro_core::registry::{
    booster_at, enhanced_at, joker_at, planet_at, spectral_at, tag_at, tarot_at, voucher_at,
    JokerId,
};
use balatro_core::rng::RngState;
use std::collections::HashSet;

#[test]
fn registries_are_complete_and_distinct() {
    let mut keys: HashSet<&str> = HashSet::new();
    for i in 0..150 {
        let m = joker_at(i);
        assert_eq!(m.id, JokerId::ALL[i]);
        assert_eq!(m.id.key(), m.key);
        assert_eq!(m.id.name(), m.name);
        assert_eq!(joker_by_key(m.key).unwrap().id, m.id);
        assert!((1..=4).contains(&m.rarity));
        assert!(keys.insert(m.key));
    }
    for i in 0..22 {
        assert!(keys.insert(tarot_at(i).key));
    }
    for i in 0..12 {
        assert!(keys.insert(planet_at(i).key));
    }
    for i in 0..18 {
        assert!(keys.insert(spectral_at(i).key));
    }
    for i in 0..32 {
        assert!(keys.insert(voucher_at(i).key));
        assert!(keys.insert(booster_at(i).key));
    }
    for i in 0..24 {
        assert!(keys.insert(tag_at(i).key));
    }
    for i in 0..8 {
        assert!(keys.insert(enhanced_at(i)));
    }
    let count = |r: u8| (0..150).filter(|&i| joker_at(i).rarity == r).count();
    assert_eq!((count(1), count(2), count(3), count(4)), (61, 64, 20, 5));
}

#[test]
fn things_are_found_by_key() {
    assert_eq!(joker_by_key("j_blueprint").unwrap().cost, 10);
    assert_eq!(voucher_by_key("v_blank").unwrap().cost, 10);
    assert!(voucher_by_key("v_antimatter").is_some());
    assert!(tag_by_key("tag_double").is_some());
    assert!(booster_by_key("p_spectral_mega_1").is_some());
    let (c, set) = consumable_by_key("c_hex").unwrap();
    assert_eq!((c.key, set), ("c_hex", ConsumableSet::Spectral));
    assert_eq!(consumable_by_key("c_fool").unwrap().1, ConsumableSet::Tarot);
    assert_eq!(consumable_by_key("c_pluto").unwrap().1, ConsumableSet::Planet);
    assert!(consumable_by_key("j_joker").is_none());
    assert!(joker_by_key("c_hex").is_none());
    assert_eq!(center_base_cost("c_hex"), 4);
    assert_eq!(center_base_cost("c_fool"), 3);
    assert_eq!(center_base_cost("j_joker"), 2);
}

#[test]
fn planets_go_with_hands() {
    assert_eq!(hand_for_planet("c_pluto"), Some(HandType::HighCard));
    assert_eq!(hand_for_planet("c_eris"), Some(HandType::FlushFive));
    assert_eq!(hand_for_planet("c_fool"), None);
    assert!(planet_softlocked("c_eris") && !planet_softlocked("c_pluto"));
    assert_eq!(enhancement_from_key("m_glass"), Enhancement::Glass);
    assert_eq!(enhancement_from_key("m_lucky"), Enhancement::Lucky);
}

#[test]
fn fronts_are_numbered() {
    let all: HashSet<(Suit, u8)> = (0..52)
        .map(|i| card_front_from_index(i))
        .map(|(s, r)| (s, r.0))
        .collect();
    assert_eq!(all.len(), 52);
}

#[test]
fn elements_are_drawn_from_a_list() {
    let mut rng = RngState::new("PICK");
    let mut seen: HashSet<usize> = HashSet::new();
    for _ in 0..100 {
        let i = element_index(&mut rng, "pick", 4);
        assert!(i < 4);
        seen.insert(i);
    }
    assert_eq!(seen.len(), 4);
    let pool = vec!["UNAVAILABLE", "c_fool", "UNAVAILABLE", "c_magician"];
    for _ in 0..20 {
        let k = pool_draw(&mut rng, &pool, "draw");
        assert!(k == "c_fool" || k == "c_magician");
    }
}

fn with_args<R>(f: impl Fn(&PoolArgs) -> R, used: &KeyMap<u32>, deck: &Vec<Card>) -> R {
    let vouchers: KeyMap<()> = KeyMap::new();
    let flags: KeyMap<()> = KeyMap::new();
    let shop_vouchers: Vec<&'static str> = Vec::new();
    let none: Vec<Card> = Vec::new();
    let args = PoolArgs {
        ante: 1,
        used_keys: used,
        used_vouchers: &vouchers,
        shop_vouchers: &shop_vouchers,
        hands: None,
        deck,
        hand: &none,
        discard: &none,
        pool_flags: &flags,
        showman: false,
    };
    f(&args)
}

#[test]
fn pools_leave_out_what_is_about() {
    let mut used: KeyMap<u32> = KeyMap::new();
    used.insert("c_fool", 1);
    let spec = PoolSpec::Consumable { set: ConsumableSet::Tarot, append: "" };
    let deck: Vec<Card> = Vec::new();
    let pool = with_args(
        |a| get_current_pool(&mut RngState::new("POOL"), &spec, a).0,
        &used,
        &deck,
    );
    assert_eq!(pool.len(), 22);
    assert_eq!(pool[0], "UNAVAILABLE");
    assert_eq!(pool.iter().filter(|k| **k == "UNAVAILABLE").count(), 1);
}

#[test]
fn an_empty_pool_falls_back() {
    let mut used: KeyMap<u32> = KeyMap::new();
    for i in 0..22 {
        used.insert(tarot_at(i).key, 1);
    }
    let spec = PoolSpec::Consumable { set: ConsumableSet::Tarot, append: "" };
    let deck: Vec<Card> = Vec::new();
    let key = with_args(
        |a| roll_from_pool(&mut RngState::new("EMPTY"), &spec, a),
        &used,
        &deck,
    );
    assert_eq!(key, "c_strength");
}

#[test]
fn gated_jokers_wait_for_their_card() {
    let used: KeyMap<u32> = KeyMap::new();
    let gate = |deck: &Vec<Card>| {
        with_args(
            |a| {
                let spec = PoolSpec::Joker {
                    rarity: Some(Double::lit(8, 10)),
                    legendary: false,
                    append: "",
                };
                let pool = get_current_pool(&mut RngState::new("GATE"), &spec, a).0;
                pool.contains(&"j_glass")
            },
            &used,
            deck,
        )
    };
    let mut deck = vec![Card::new(Rank(2), Suit::Clubs, 1)];
    assert!(!gate(&deck));
    deck[0].enhancement = Enhancement::Glass;
    assert!(gate(&deck));
}

#[test]
fn editions_follow_the_poll() {
    let one = Double::from_i64(1);
    let mut seen: HashSet<String> = HashSet::new();
    let mut rng = RngState::new("EDITION");
    for _ in 0..60 {
        let e = poll_edition(&mut rng, "polled", one, true, true, one);
        assert_ne!(e, Edition::Negative);
        assert_ne!(e, Edition::Plain);
        seen.insert(format!("{e:?}"));
    }
    assert_eq!(seen.len(), 3);
    let mut plain = 0;
    for _ in 0..100 {
        if poll_edition(&mut rng, "rarely", one, false, false, one) == Edition::Plain {
            plain += 1;
        }
    }
    assert!(plain > 80);
}

#[test]
fn packs_are_rolled_by_weight() {
    let mut rng = RngState::new("WEIGHT");
    let mut seen: HashSet<&str> = HashSet::new();
    for _ in 0..300 {
        seen.insert(get_pack_roll(&mut rng, "shop_pack", 1).key);
    }
    assert!(seen.len() > 20);
    assert!(seen.iter().all(|k| booster_by_key(k).is_some()));
}
