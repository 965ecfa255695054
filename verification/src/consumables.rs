//! Consumables that seals make.
use crate::cards::HandType;
use crate::items;
use crate::items::pool_draw;
use crate::keymap::KeyMap;
use crate::registry;
use crate::registry::Key;
use crate::rng::RngState;
use crate::text;
use crate::text::with_number;
use vstd::prelude::*;

verus! {

/// How many consumables a run can hold at first.
pub const CONSUMABLE_SLOTS: usize = 2;

/// The Tarot cards in pool order.
pub const TAROT_POOL: [&'static str; 22] = [
    "c_fool",
    "c_magician",
    "c_high_priestess",
    "c_empress",
    "c_emperor",
    "c_heirophant",
    "c_lovers",
    "c_chariot",
    "c_justice",
    "c_hermit",
    "c_wheel_of_fortune",
    "c_strength",
    "c_hanged_man",
    "c_death",
    "c_temperance",
    "c_devil",
    "c_tower",
    "c_star",
    "c_moon",
    "c_sun",
    "c_judgement",
    "c_world",
];

/// The Planet card of a poker hand.
pub open spec fn planet_key(ht: HandType) -> Key {
    match ht {
        HandType::Pair => "c_mercury",
        HandType::ThreeOfAKind => "c_venus",
        HandType::FullHouse => "c_earth",
        HandType::FourOfAKind => "c_mars",
        HandType::Flush => "c_jupiter",
        HandType::Straight => "c_saturn",
        HandType::TwoPair => "c_uranus",
        HandType::StraightFlush => "c_neptune",
        HandType::HighCard => "c_pluto",
        HandType::FiveOfAKind => "c_planet_x",
        HandType::FlushHouse => "c_ceres",
        HandType::FlushFive => "c_eris",
    }
}

pub fn planet_for_hand(ht: HandType) -> (r: &'static str)
    ensures
        r == planet_key(ht),
{
    match ht {
        HandType::Pair => "c_mercury",
        HandType::ThreeOfAKind => "c_venus",
        HandType::FullHouse => "c_earth",
        HandType::FourOfAKind => "c_mars",
        HandType::Flush => "c_jupiter",
        HandType::Straight => "c_saturn",
        HandType::TwoPair => "c_uranus",
        HandType::StraightFlush => "c_neptune",
        HandType::HighCard => "c_pluto",
        HandType::FiveOfAKind => "c_planet_x",
        HandType::FlushHouse => "c_ceres",
        HandType::FlushFive => "c_eris",
    }
}

/// The Planet card of a hand is the card of that hand.
pub proof fn law_planet_of_hand_of_planet(ht: HandType)
    ensures
        items::planet_hand(planet_key(ht)@) == Some(ht),
{
    reveal_strlit("c_mercury");
    reveal_strlit("c_venus");
    reveal_strlit("c_earth");
    reveal_strlit("c_mars");
    reveal_strlit("c_jupiter");
    reveal_strlit("c_saturn");
    reveal_strlit("c_uranus");
    reveal_strlit("c_neptune");
    reveal_strlit("c_pluto");
    reveal_strlit("c_planet_x");
    reveal_strlit("c_ceres");
    reveal_strlit("c_eris");
    assert("c_mercury"@[2] == 'm' && "c_mercury"@.len() == 9);
    assert("c_venus"@[2] == 'v' && "c_venus"@.len() == 7);
    assert("c_earth"@[2] == 'e' && "c_earth"@.len() == 7);
    assert("c_mars"@[2] == 'm' && "c_mars"@.len() == 6);
    assert("c_jupiter"@[2] == 'j' && "c_jupiter"@.len() == 9);
    assert("c_saturn"@[2] == 's' && "c_saturn"@.len() == 8);
    assert("c_uranus"@[2] == 'u' && "c_uranus"@.len() == 8);
    assert("c_neptune"@[2] == 'n' && "c_neptune"@.len() == 9);
    assert("c_pluto"@[2] == 'p' && "c_pluto"@.len() == 7);
    assert("c_planet_x"@[2] == 'p' && "c_planet_x"@.len() == 10);
    assert("c_ceres"@[2] == 'c' && "c_ceres"@.len() == 7);
    assert("c_eris"@[2] == 'e' && "c_eris"@.len() == 6);
}

/// The Tarot pool with what is about already masked.
pub open spec fn seal_pool(used: Map<Seq<char>, ()>) -> Seq<Key> {
    Seq::new(
        22,
        |i: int|
            if used.dom().contains(registry::tarot(i).key@) {
                items::unavailable()
            } else {
                registry::tarot(i).key
            },
    )
}

/// The key of the draw of a purple seal.
pub open spec fn seal_key(ante: i64) -> Seq<char> {
    "Tarot8ba"@ + text::decimal(ante as int)
}

/// The Tarot card that a purple seal makes.
pub fn purple_seal_tarot(rng: &mut RngState, ante: i64, used_keys: &KeyMap<()>) -> (r: &'static str)
    requires
        exists|i: int|
            0 <= i < 22 && !used_keys@.dom().contains((#[trigger] registry::tarot(i)).key@),
    ensures
        r == items::drawn(old(rng)@, seal_pool(used_keys@), seal_key(ante)).0,
        final(rng)@ == items::drawn(old(rng)@, seal_pool(used_keys@), seal_key(ante)).1,
{
    let mut pool: Vec<&'static str> = Vec::new();
    let ghost all = seal_pool(used_keys@);
    let mut i: usize = 0;
    while i < 22
        invariant
            i <= 22,
            all == seal_pool(used_keys@),
            pool@ == all.take(i as int),
        decreases 22 - i,
    {
        let m = registry::tarot_at(i);
        if used_keys.contains(m.key) {
            pool.push("UNAVAILABLE");
        } else {
            pool.push(m.key);
        }
        i = i + 1;
        assert(pool@ =~= all.take(i as int));
    }
    assert(all.take(22) =~= all);
    pool_draw(rng, &pool, with_number("Tarot8ba", ante).as_str())
}

/// The Tarot pool is the Tarot table of the registry.
pub proof fn law_tarot_pool_is_the_registry(i: int)
    requires
        0 <= i < 22,
    ensures
        registry::tarot(i).key == TAROT_POOL[i],
{
    reveal(registry::tarot);
}

} // verus!
