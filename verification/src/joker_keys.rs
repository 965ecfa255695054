//! Every joker has a key of its own.
use crate::items;
use crate::registry;
use crate::registry::JokerId;
use vstd::prelude::*;

verus! {

/// The length of a key and its third to fifth characters, as one number.
#[verifier::opaque]
spec fn gist(key: Seq<char>) -> int {
    ((key.len() * 128 + key[2] as int) * 128 + key[3] as int) * 128 + key[4] as int
}

/// The joker whose key has a gist.
#[verifier::opaque]
spec fn bearer(gist: int) -> Option<JokerId> {
    if gist == 16431083 {
        Some(JokerId::Joker)
    } else if gist == 31062373 {
        Some(JokerId::GreedyJoker)
    } else if gist == 29047539 {
        Some(JokerId::LustyJoker)
    } else if gist == 35518817 {
        Some(JokerId::WrathfulJoker)
    } else if gist == 39450229 {
        Some(JokerId::GluttenousJoker)
    } else if gist == 16431084 {
        Some(JokerId::Jolly)
    } else if gist == 14594286 {
        Some(JokerId::Zany)
    } else if gist == 12284132 {
        Some(JokerId::Mad)
    } else if gist == 16316769 {
        Some(JokerId::Crazy)
    } else if gist == 16333167 {
        Some(JokerId::Droll)
    } else if gist == 12383865 {
        Some(JokerId::Sly)
    } else if gist == 14546156 {
        Some(JokerId::Wily)
    } else if gist == 18413157 {
        Some(JokerId::Clever)
    } else if gist == 20525814 {
        Some(JokerId::Devious)
    } else if gist == 18413921 {
        Some(JokerId::Crafty)
    } else if gist == 14299372 {
        Some(JokerId::Half)
    } else if gist == 20773477 {
        Some(JokerId::Stencil)
    } else if gist == 31045621 {
        Some(JokerId::FourFingers)
    } else if gist == 14382317 {
        Some(JokerId::Mime)
    } else if gist == 28899685 {
        Some(JokerId::CreditCard)
    } else if gist == 26800882 {
        Some(JokerId::Ceremonial)
    } else if gist == 18395374 {
        Some(JokerId::Banner)
    } else if gist == 33258739 {
        Some(JokerId::MysticSummit)
    } else if gist == 18575602 {
        Some(JokerId::Marble)
    } else if gist == 31143929 {
        Some(JokerId::LoyaltyCard)
    } else if gist == 17706978 {
        Some(JokerId::EightBall)
    } else if gist == 22770931 {
        Some(JokerId::Misprint)
    } else if gist == 14236403 {
        Some(JokerId::Dusk)
    } else if gist == 29143273 {
        Some(JokerId::RaisedFist)
    } else if gist == 16315489 {
        Some(JokerId::Chaos)
    } else if gist == 24753378 {
        Some(JokerId::Fibonacci)
    } else if gist == 29162085 {
        Some(JokerId::SteelJoker)
    } else if gist == 27062753 {
        Some(JokerId::ScaryFace)
    } else if gist == 22573427 {
        Some(JokerId::Abstract)
    } else if gist == 31011564 {
        Some(JokerId::DelayedGrat)
    } else if gist == 14299363 {
        Some(JokerId::Hack)
    } else if gist == 27013362 {
        Some(JokerId::Pareidolia)
    } else if gist == 28965231 {
        Some(JokerId::GrosMichel)
    } else if gist == 28932965 {
        Some(JokerId::EvenSteven)
    } else if gist == 22803044 {
        Some(JokerId::OddTodd)
    } else if gist == 20771304 {
        Some(JokerId::Scholar)
    } else if gist == 22592243 {
        Some(JokerId::Business)
    } else if gist == 24967920 {
        Some(JokerId::Supernova)
    } else if gist == 31241444 {
        Some(JokerId::RideTheBus)
    } else if gist == 16578657 {
        Some(JokerId::Space)
    } else if gist == 12153831 {
        Some(JokerId::Egg)
    } else if gist == 20495090 {
        Some(JokerId::Burglar)
    } else if gist == 26785377 {
        Some(JokerId::Blackboard)
    } else if gist == 18660078 {
        Some(JokerId::Runner)
    } else if gist == 24801765 {
        Some(JokerId::IceCream)
    } else if gist == 12138337 {
        Some(JokerId::Dna)
    } else if gist == 18675820 {
        Some(JokerId::Splash)
    } else if gist == 26785397 {
        Some(JokerId::BlueJoker)
    } else if gist == 29160696 {
        Some(JokerId::SixthSense)
    } else if gist == 33093614 {
        Some(JokerId::Constellation)
    } else if gist == 16397547 {
        Some(JokerId::Hiker)
    } else if gist == 22655203 {
        Some(JokerId::Faceless)
    } else if gist == 28965221 {
        Some(JokerId::GreenJoker)
    } else if gist == 33356528 {
        Some(JokerId::Superposition)
    } else if gist == 24983524 {
        Some(JokerId::TodoList)
    } else if gist == 24703222 {
        Some(JokerId::Cavendish)
    } else if gist == 26800370 {
        Some(JokerId::CardSharp)
    } else if gist == 22852324 {
        Some(JokerId::RedCard)
    } else if gist == 20672740 {
        Some(JokerId::Madness)
    } else if gist == 18675957 {
        Some(JokerId::Square)
    } else if gist == 18674401 {
        Some(JokerId::Seance)
    } else if gist == 24949990 {
        Some(JokerId::RiffRaff)
    } else if gist == 20820205 {
        Some(JokerId::Vampire)
    } else if gist == 22869103 {
        Some(JokerId::Shortcut)
    } else if gist == 22689772 {
        Some(JokerId::Hologram)
    } else if gist == 22917351 {
        Some(JokerId::Vagabond)
    } else if gist == 16298226 {
        Some(JokerId::Baron)
    } else if gist == 20510319 {
        Some(JokerId::Cloud9)
    } else if gist == 18659299 {
        Some(JokerId::Rocket)
    } else if gist == 20705637 {
        Some(JokerId::Obelisk)
    } else if gist == 26965220 {
        Some(JokerId::MidasMask)
    } else if gist == 22756067 {
        Some(JokerId::Luchador)
    } else if gist == 27014255 {
        Some(JokerId::Photograph)
    } else if gist == 14284006 {
        Some(JokerId::Gift)
    } else if gist == 29178610 {
        Some(JokerId::TurtleBean)
    } else if gist == 20543855 {
        Some(JokerId::Erosion)
    } else if gist == 39629555 {
        Some(JokerId::ReservedParking)
    } else if gist == 14381289 {
        Some(JokerId::Mail)
    } else if gist == 29177823 {
        Some(JokerId::ToTheMoon)
    } else if gist == 33173740 {
        Some(JokerId::Hallucination)
    } else if gist == 35239922 {
        Some(JokerId::FortuneTeller)
    } else if gist == 20626151 {
        Some(JokerId::Juggler)
    } else if gist == 22624629 {
        Some(JokerId::Drunkard)
    } else if gist == 16579183 {
        Some(JokerId::Stone)
    } else if gist == 18479084 {
        Some(JokerId::Golden)
    } else if gist == 24853219 {
        Some(JokerId::LuckyCat)
    } else if gist == 22589683 {
        Some(JokerId::Baseball)
    } else if gist == 14203628 {
        Some(JokerId::Bull)
    } else if gist == 24720613 {
        Some(JokerId::DietCola)
    } else if gist == 20789601 {
        Some(JokerId::Trading)
    } else if gist == 16365153 {
        Some(JokerId::Flash)
    } else if gist == 20723696 {
        Some(JokerId::Popcorn)
    } else if gist == 22886767 {
        Some(JokerId::Trousers)
    } else if gist == 20477795 {
        Some(JokerId::Ancient)
    } else if gist == 16560365 {
        Some(JokerId::Ramen)
    } else if gist == 33419500 {
        Some(JokerId::WalkieTalkie)
    } else if gist == 18674412 {
        Some(JokerId::Selzer)
    } else if gist == 18411763 {
        Some(JokerId::Castle)
    } else if gist == 18675433 {
        Some(JokerId::Smiley)
    } else if gist == 22606061 {
        Some(JokerId::Campfire)
    } else if gist == 18691299 {
        Some(JokerId::Ticket)
    } else if gist == 22772063 {
        Some(JokerId::MrBones)
    } else if gist == 20476402 {
        Some(JokerId::Acrobat)
    } else if gist == 37550051 {
        Some(JokerId::SockAndBuskin)
    } else if gist == 31259617 {
        Some(JokerId::Swashbuckler)
    } else if gist == 27081071 {
        Some(JokerId::Troubadour)
    } else if gist == 28898034 {
        Some(JokerId::Certificate)
    } else if gist == 20772581 {
        Some(JokerId::Smeared)
    } else if gist == 24982642 {
        Some(JokerId::Throwback)
    } else if gist == 31076590 {
        Some(JokerId::HangingChad)
    } else if gist == 24950773 {
        Some(JokerId::RoughGem)
    } else if gist == 26785391 {
        Some(JokerId::Bloodstone)
    } else if gist == 24672626 {
        Some(JokerId::Arrowhead)
    } else if gist == 26998649 {
        Some(JokerId::OnyxAgate)
    } else if gist == 16381537 {
        Some(JokerId::Glass)
    } else if gist == 29144302 {
        Some(JokerId::RingMaster)
    } else if gist == 26850927 {
        Some(JokerId::FlowerPot)
    } else if gist == 24688245 {
        Some(JokerId::Blueprint)
    } else if gist == 12448485 {
        Some(JokerId::Wee)
    } else if gist == 26964722 {
        Some(JokerId::MerryAndy)
    } else if gist == 14415856 {
        Some(JokerId::Oops)
    } else if gist == 14316143 {
        Some(JokerId::Idol)
    } else if gist == 33354469 {
        Some(JokerId::SeeingDouble)
    } else if gist == 20672756 {
        Some(JokerId::Matador)
    } else if gist == 31077620 {
        Some(JokerId::HitTheRoad)
    } else if gist == 12139247 {
        Some(JokerId::Duo)
    } else if gist == 14498153 {
        Some(JokerId::Trio)
    } else if gist == 18460909 {
        Some(JokerId::Family)
    } else if gist == 16513380 {
        Some(JokerId::Order)
    } else if gist == 16595305 {
        Some(JokerId::Tribe)
    } else if gist == 22870645 {
        Some(JokerId::Stuntman)
    } else if gist == 24803190 {
        Some(JokerId::Invisible)
    } else if gist == 26786145 {
        Some(JokerId::Brainstorm)
    } else if gist == 24965364 {
        Some(JokerId::Satellite)
    } else if gist == 35452015 {
        Some(JokerId::ShootTheMoon)
    } else if gist == 37304681 {
        Some(JokerId::DriversLicense)
    } else if gist == 28897522 {
        Some(JokerId::Cartomancer)
    } else if gist == 26769908 {
        Some(JokerId::Astronomer)
    } else if gist == 16300786 {
        Some(JokerId::Burnt)
    } else if gist == 26785775 {
        Some(JokerId::Bootstraps)
    } else if gist == 16314601 {
        Some(JokerId::Caino)
    } else if gist == 24983913 {
        Some(JokerId::Triboulet)
    } else if gist == 18774002 {
        Some(JokerId::Yorick)
    } else if gist == 18412649 {
        Some(JokerId::Chicot)
    } else if gist == 18625266 {
        Some(JokerId::Perkeo)
    } else {
        None
    }
}

/// The place of a joker in the pools.
pub open spec fn place(id: JokerId) -> int {
    match id {
        JokerId::Joker => 0,
        JokerId::GreedyJoker => 1,
        JokerId::LustyJoker => 2,
        JokerId::WrathfulJoker => 3,
        JokerId::GluttenousJoker => 4,
        JokerId::Jolly => 5,
        JokerId::Zany => 6,
        JokerId::Mad => 7,
        JokerId::Crazy => 8,
        JokerId::Droll => 9,
        JokerId::Sly => 10,
        JokerId::Wily => 11,
        JokerId::Clever => 12,
        JokerId::Devious => 13,
        JokerId::Crafty => 14,
        JokerId::Half => 15,
        JokerId::Stencil => 16,
        JokerId::FourFingers => 17,
        JokerId::Mime => 18,
        JokerId::CreditCard => 19,
        JokerId::Ceremonial => 20,
        JokerId::Banner => 21,
        JokerId::MysticSummit => 22,
        JokerId::Marble => 23,
        JokerId::LoyaltyCard => 24,
        JokerId::EightBall => 25,
        JokerId::Misprint => 26,
        JokerId::Dusk => 27,
        JokerId::RaisedFist => 28,
        JokerId::Chaos => 29,
        JokerId::Fibonacci => 30,
        JokerId::SteelJoker => 31,
        JokerId::ScaryFace => 32,
        JokerId::Abstract => 33,
        JokerId::DelayedGrat => 34,
        JokerId::Hack => 35,
        JokerId::Pareidolia => 36,
        JokerId::GrosMichel => 37,
        JokerId::EvenSteven => 38,
        JokerId::OddTodd => 39,
        JokerId::Scholar => 40,
        JokerId::Business => 41,
        JokerId::Supernova => 42,
        JokerId::RideTheBus => 43,
        JokerId::Space => 44,
        JokerId::Egg => 45,
        JokerId::Burglar => 46,
        JokerId::Blackboard => 47,
        JokerId::Runner => 48,
        JokerId::IceCream => 49,
        JokerId::Dna => 50,
        JokerId::Splash => 51,
        JokerId::BlueJoker => 52,
        JokerId::SixthSense => 53,
        JokerId::Constellation => 54,
        JokerId::Hiker => 55,
        JokerId::Faceless => 56,
        JokerId::GreenJoker => 57,
        JokerId::Superposition => 58,
        JokerId::TodoList => 59,
        JokerId::Cavendish => 60,
        JokerId::CardSharp => 61,
        JokerId::RedCard => 62,
        JokerId::Madness => 63,
        JokerId::Square => 64,
        JokerId::Seance => 65,
        JokerId::RiffRaff => 66,
        JokerId::Vampire => 67,
        JokerId::Shortcut => 68,
        JokerId::Hologram => 69,
        JokerId::Vagabond => 70,
        JokerId::Baron => 71,
        JokerId::Cloud9 => 72,
        JokerId::Rocket => 73,
        JokerId::Obelisk => 74,
        JokerId::MidasMask => 75,
        JokerId::Luchador => 76,
        JokerId::Photograph => 77,
        JokerId::Gift => 78,
        JokerId::TurtleBean => 79,
        JokerId::Erosion => 80,
        JokerId::ReservedParking => 81,
        JokerId::Mail => 82,
        JokerId::ToTheMoon => 83,
        JokerId::Hallucination => 84,
        JokerId::FortuneTeller => 85,
        JokerId::Juggler => 86,
        JokerId::Drunkard => 87,
        JokerId::Stone => 88,
        JokerId::Golden => 89,
        JokerId::LuckyCat => 90,
        JokerId::Baseball => 91,
        JokerId::Bull => 92,
        JokerId::DietCola => 93,
        JokerId::Trading => 94,
        JokerId::Flash => 95,
        JokerId::Popcorn => 96,
        JokerId::Trousers => 97,
        JokerId::Ancient => 98,
        JokerId::Ramen => 99,
        JokerId::WalkieTalkie => 100,
        JokerId::Selzer => 101,
        JokerId::Castle => 102,
        JokerId::Smiley => 103,
        JokerId::Campfire => 104,
        JokerId::Ticket => 105,
        JokerId::MrBones => 106,
        JokerId::Acrobat => 107,
        JokerId::SockAndBuskin => 108,
        JokerId::Swashbuckler => 109,
        JokerId::Troubadour => 110,
        JokerId::Certificate => 111,
        JokerId::Smeared => 112,
        JokerId::Throwback => 113,
        JokerId::HangingChad => 114,
        JokerId::RoughGem => 115,
        JokerId::Bloodstone => 116,
        JokerId::Arrowhead => 117,
        JokerId::OnyxAgate => 118,
        JokerId::Glass => 119,
        JokerId::RingMaster => 120,
        JokerId::FlowerPot => 121,
        JokerId::Blueprint => 122,
        JokerId::Wee => 123,
        JokerId::MerryAndy => 124,
        JokerId::Oops => 125,
        JokerId::Idol => 126,
        JokerId::SeeingDouble => 127,
        JokerId::Matador => 128,
        JokerId::HitTheRoad => 129,
        JokerId::Duo => 130,
        JokerId::Trio => 131,
        JokerId::Family => 132,
        JokerId::Order => 133,
        JokerId::Tribe => 134,
        JokerId::Stuntman => 135,
        JokerId::Invisible => 136,
        JokerId::Brainstorm => 137,
        JokerId::Satellite => 138,
        JokerId::ShootTheMoon => 139,
        JokerId::DriversLicense => 140,
        JokerId::Cartomancer => 141,
        JokerId::Astronomer => 142,
        JokerId::Burnt => 143,
        JokerId::Bootstraps => 144,
        JokerId::Caino => 145,
        JokerId::Triboulet => 146,
        JokerId::Yorick => 147,
        JokerId::Chicot => 148,
        JokerId::Perkeo => 149,
    }
}

proof fn lemma_bearers_from_0()
    ensures
        bearer(gist("j_joker"@)) == Some(JokerId::Joker),
        bearer(gist("j_greedy_joker"@)) == Some(JokerId::GreedyJoker),
        bearer(gist("j_lusty_joker"@)) == Some(JokerId::LustyJoker),
        bearer(gist("j_wrathful_joker"@)) == Some(JokerId::WrathfulJoker),
        bearer(gist("j_gluttenous_joker"@)) == Some(JokerId::GluttenousJoker),
        bearer(gist("j_jolly"@)) == Some(JokerId::Jolly),
        bearer(gist("j_zany"@)) == Some(JokerId::Zany),
        bearer(gist("j_mad"@)) == Some(JokerId::Mad),
        bearer(gist("j_crazy"@)) == Some(JokerId::Crazy),
        bearer(gist("j_droll"@)) == Some(JokerId::Droll),
        bearer(gist("j_sly"@)) == Some(JokerId::Sly),
        bearer(gist("j_wily"@)) == Some(JokerId::Wily),
        bearer(gist("j_clever"@)) == Some(JokerId::Clever),
        bearer(gist("j_devious"@)) == Some(JokerId::Devious),
        bearer(gist("j_crafty"@)) == Some(JokerId::Crafty),
{
    reveal(gist);
    reveal(bearer);
    reveal_strlit("j_joker");
    reveal_strlit("j_greedy_joker");
    reveal_strlit("j_lusty_joker");
    reveal_strlit("j_wrathful_joker");
    reveal_strlit("j_gluttenous_joker");
    reveal_strlit("j_jolly");
    reveal_strlit("j_zany");
    reveal_strlit("j_mad");
    reveal_strlit("j_crazy");
    reveal_strlit("j_droll");
    reveal_strlit("j_sly");
    reveal_strlit("j_wily");
    reveal_strlit("j_clever");
    reveal_strlit("j_devious");
    reveal_strlit("j_crafty");
}

proof fn lemma_bearers_from_15()
    ensures
        bearer(gist("j_half"@)) == Some(JokerId::Half),
        bearer(gist("j_stencil"@)) == Some(JokerId::Stencil),
        bearer(gist("j_four_fingers"@)) == Some(JokerId::FourFingers),
        bearer(gist("j_mime"@)) == Some(JokerId::Mime),
        bearer(gist("j_credit_card"@)) == Some(JokerId::CreditCard),
        bearer(gist("j_ceremonial"@)) == Some(JokerId::Ceremonial),
        bearer(gist("j_banner"@)) == Some(JokerId::Banner),
        bearer(gist("j_mystic_summit"@)) == Some(JokerId::MysticSummit),
        bearer(gist("j_marble"@)) == Some(JokerId::Marble),
        bearer(gist("j_loyalty_card"@)) == Some(JokerId::LoyaltyCard),
        bearer(gist("j_8_ball"@)) == Some(JokerId::EightBall),
        bearer(gist("j_misprint"@)) == Some(JokerId::Misprint),
        bearer(gist("j_dusk"@)) == Some(JokerId::Dusk),
        bearer(gist("j_raised_fist"@)) == Some(JokerId::RaisedFist),
        bearer(gist("j_chaos"@)) == Some(JokerId::Chaos),
{
    reveal(gist);
    reveal(bearer);
    reveal_strlit("j_half");
    reveal_strlit("j_stencil");
    reveal_strlit("j_four_fingers");
    reveal_strlit("j_mime");
    reveal_strlit("j_credit_card");
    reveal_strlit("j_ceremonial");
    reveal_strlit("j_banner");
    reveal_strlit("j_mystic_summit");
    reveal_strlit("j_marble");
    reveal_strlit("j_loyalty_card");
    reveal_strlit("j_8_ball");
    reveal_strlit("j_misprint");
    reveal_strlit("j_dusk");
    reveal_strlit("j_raised_fist");
    reveal_strlit("j_chaos");
}

proof fn lemma_bearers_from_30()
    ensures
        bearer(gist("j_fibonacci"@)) == Some(JokerId::Fibonacci),
        bearer(gist("j_steel_joker"@)) == Some(JokerId::SteelJoker),
        bearer(gist("j_scary_face"@)) == Some(JokerId::ScaryFace),
        bearer(gist("j_abstract"@)) == Some(JokerId::Abstract),
        bearer(gist("j_delayed_grat"@)) == Some(JokerId::DelayedGrat),
        bearer(gist("j_hack"@)) == Some(JokerId::Hack),
        bearer(gist("j_pareidolia"@)) == Some(JokerId::Pareidolia),
        bearer(gist("j_gros_michel"@)) == Some(JokerId::GrosMichel),
        bearer(gist("j_even_steven"@)) == Some(JokerId::EvenSteven),
        bearer(gist("j_odd_todd"@)) == Some(JokerId::OddTodd),
        bearer(gist("j_scholar"@)) == Some(JokerId::Scholar),
        bearer(gist("j_business"@)) == Some(JokerId::Business),
        bearer(gist("j_supernova"@)) == Some(JokerId::Supernova),
        bearer(gist("j_ride_the_bus"@)) == Some(JokerId::RideTheBus),
        bearer(gist("j_space"@)) == Some(JokerId::Space),
{
    reveal(gist);
    reveal(bearer);
    reveal_strlit("j_fibonacci");
    reveal_strlit("j_steel_joker");
    reveal_strlit("j_scary_face");
    reveal_strlit("j_abstract");
    reveal_strlit("j_delayed_grat");
    reveal_strlit("j_hack");
    reveal_strlit("j_pareidolia");
    reveal_strlit("j_gros_michel");
    reveal_strlit("j_even_steven");
    reveal_strlit("j_odd_todd");
    reveal_strlit("j_scholar");
    reveal_strlit("j_business");
    reveal_strlit("j_supernova");
    reveal_strlit("j_ride_the_bus");
    reveal_strlit("j_space");
}

proof fn lemma_bearers_from_45()
    ensures
        bearer(gist("j_egg"@)) == Some(JokerId::Egg),
        bearer(gist("j_burglar"@)) == Some(JokerId::Burglar),
        bearer(gist("j_blackboard"@)) == Some(JokerId::Blackboard),
        bearer(gist("j_runner"@)) == Some(JokerId::Runner),
        bearer(gist("j_ice_cream"@)) == Some(JokerId::IceCream),
        bearer(gist("j_dna"@)) == Some(JokerId::Dna),
        bearer(gist("j_splash"@)) == Some(JokerId::Splash),
        bearer(gist("j_blue_joker"@)) == Some(JokerId::BlueJoker),
        bearer(gist("j_sixth_sense"@)) == Some(JokerId::SixthSense),
        bearer(gist("j_constellation"@)) == Some(JokerId::Constellation),
        bearer(gist("j_hiker"@)) == Some(JokerId::Hiker),
        bearer(gist("j_faceless"@)) == Some(JokerId::Faceless),
        bearer(gist("j_green_joker"@)) == Some(JokerId::GreenJoker),
        bearer(gist("j_superposition"@)) == Some(JokerId::Superposition),
        bearer(gist("j_todo_list"@)) == Some(JokerId::TodoList),
{
    reveal(gist);
    reveal(bearer);
    reveal_strlit("j_egg");
    reveal_strlit("j_burglar");
    reveal_strlit("j_blackboard");
    reveal_strlit("j_runner");
    reveal_strlit("j_ice_cream");
    reveal_strlit("j_dna");
    reveal_strlit("j_splash");
    reveal_strlit("j_blue_joker");
    reveal_strlit("j_sixth_sense");
    reveal_strlit("j_constellation");
    reveal_strlit("j_hiker");
    reveal_strlit("j_faceless");
    reveal_strlit("j_green_joker");
    reveal_strlit("j_superposition");
    reveal_strlit("j_todo_list");
}

proof fn lemma_bearers_from_60()
    ensures
        bearer(gist("j_cavendish"@)) == Some(JokerId::Cavendish),
        bearer(gist("j_card_sharp"@)) == Some(JokerId::CardSharp),
        bearer(gist("j_red_card"@)) == Some(JokerId::RedCard),
        bearer(gist("j_madness"@)) == Some(JokerId::Madness),
        bearer(gist("j_square"@)) == Some(JokerId::Square),
        bearer(gist("j_seance"@)) == Some(JokerId::Seance),
        bearer(gist("j_riff_raff"@)) == Some(JokerId::RiffRaff),
        bearer(gist("j_vampire"@)) == Some(JokerId::Vampire),
        bearer(gist("j_shortcut"@)) == Some(JokerId::Shortcut),
        bearer(gist("j_hologram"@)) == Some(JokerId::Hologram),
        bearer(gist("j_vagabond"@)) == Some(JokerId::Vagabond),
        bearer(gist("j_baron"@)) == Some(JokerId::Baron),
        bearer(gist("j_cloud_9"@)) == Some(JokerId::Cloud9),
        bearer(gist("j_rocket"@)) == Some(JokerId::Rocket),
        bearer(gist("j_obelisk"@)) == Some(JokerId::Obelisk),
{
    reveal(gist);
    reveal(bearer);
    reveal_strlit("j_cavendish");
    reveal_strlit("j_card_sharp");
    reveal_strlit("j_red_card");
    reveal_strlit("j_madness");
    reveal_strlit("j_square");
    reveal_strlit("j_seance");
    reveal_strlit("j_riff_raff");
    reveal_strlit("j_vampire");
    reveal_strlit("j_shortcut");
    reveal_strlit("j_hologram");
    reveal_strlit("j_vagabond");
    reveal_strlit("j_baron");
    reveal_strlit("j_cloud_9");
    reveal_strlit("j_rocket");
    reveal_strlit("j_obelisk");
}

proof fn lemma_bearers_from_75()
    ensures
        bearer(gist("j_midas_mask"@)) == Some(JokerId::MidasMask),
        bearer(gist("j_luchador"@)) == Some(JokerId::Luchador),
        bearer(gist("j_photograph"@)) == Some(JokerId::Photograph),
        bearer(gist("j_gift"@)) == Some(JokerId::Gift),
        bearer(gist("j_turtle_bean"@)) == Some(JokerId::TurtleBean),
        bearer(gist("j_erosion"@)) == Some(JokerId::Erosion),
        bearer(gist("j_reserved_parking"@)) == Some(JokerId::ReservedParking),
        bearer(gist("j_mail"@)) == Some(JokerId::Mail),
        bearer(gist("j_to_the_moon"@)) == Some(JokerId::ToTheMoon),
        bearer(gist("j_hallucination"@)) == Some(JokerId::Hallucination),
        bearer(gist("j_fortune_teller"@)) == Some(JokerId::FortuneTeller),
        bearer(gist("j_juggler"@)) == Some(JokerId::Juggler),
        bearer(gist("j_drunkard"@)) == Some(JokerId::Drunkard),
        bearer(gist("j_stone"@)) == Some(JokerId::Stone),
        bearer(gist("j_golden"@)) == Some(JokerId::Golden),
{
    reveal(gist);
    reveal(bearer);
    reveal_strlit("j_midas_mask");
    reveal_strlit("j_luchador");
    reveal_strlit("j_photograph");
    reveal_strlit("j_gift");
    reveal_strlit("j_turtle_bean");
    reveal_strlit("j_erosion");
    reveal_strlit("j_reserved_parking");
    reveal_strlit("j_mail");
    reveal_strlit("j_to_the_moon");
    reveal_strlit("j_hallucination");
    reveal_strlit("j_fortune_teller");
    reveal_strlit("j_juggler");
    reveal_strlit("j_drunkard");
    reveal_strlit("j_stone");
    reveal_strlit("j_golden");
}

proof fn lemma_bearers_from_90()
    ensures
        bearer(gist("j_lucky_cat"@)) == Some(JokerId::LuckyCat),
        bearer(gist("j_baseball"@)) == Some(JokerId::Baseball),
        bearer(gist("j_bull"@)) == Some(JokerId::Bull),
        bearer(gist("j_diet_cola"@)) == Some(JokerId::DietCola),
        bearer(gist("j_trading"@)) == Some(JokerId::Trading),
        bearer(gist("j_flash"@)) == Some(JokerId::Flash),
        bearer(gist("j_popcorn"@)) == Some(JokerId::Popcorn),
        bearer(gist("j_trousers"@)) == Some(JokerId::Trousers),
        bearer(gist("j_ancient"@)) == Some(JokerId::Ancient),
        bearer(gist("j_ramen"@)) == Some(JokerId::Ramen),
        bearer(gist("j_walkie_talkie"@)) == Some(JokerId::WalkieTalkie),
        bearer(gist("j_selzer"@)) == Some(JokerId::Selzer),
        bearer(gist("j_castle"@)) == Some(JokerId::Castle),
        bearer(gist("j_smiley"@)) == Some(JokerId::Smiley),
        bearer(gist("j_campfire"@)) == Some(JokerId::Campfire),
{
    reveal(gist);
    reveal(bearer);
    reveal_strlit("j_lucky_cat");
    reveal_strlit("j_baseball");
    reveal_strlit("j_bull");
    reveal_strlit("j_diet_cola");
    reveal_strlit("j_trading");
    reveal_strlit("j_flash");
    reveal_strlit("j_popcorn");
    reveal_strlit("j_trousers");
    reveal_strlit("j_ancient");
    reveal_strlit("j_ramen");
    reveal_strlit("j_walkie_talkie");
    reveal_strlit("j_selzer");
    reveal_strlit("j_castle");
    reveal_strlit("j_smiley");
    reveal_strlit("j_campfire");
}

proof fn lemma_bearers_from_105()
    ensures
        bearer(gist("j_ticket"@)) == Some(JokerId::Ticket),
        bearer(gist("j_mr_bones"@)) == Some(JokerId::MrBones),
        bearer(gist("j_acrobat"@)) == Some(JokerId::Acrobat),
        bearer(gist("j_sock_and_buskin"@)) == Some(JokerId::SockAndBuskin),
        bearer(gist("j_swashbuckler"@)) == Some(JokerId::Swashbuckler),
        bearer(gist("j_troubadour"@)) == Some(JokerId::Troubadour),
        bearer(gist("j_certificate"@)) == Some(JokerId::Certificate),
        bearer(gist("j_smeared"@)) == Some(JokerId::Smeared),
        bearer(gist("j_throwback"@)) == Some(JokerId::Throwback),
        bearer(gist("j_hanging_chad"@)) == Some(JokerId::HangingChad),
        bearer(gist("j_rough_gem"@)) == Some(JokerId::RoughGem),
        bearer(gist("j_bloodstone"@)) == Some(JokerId::Bloodstone),
        bearer(gist("j_arrowhead"@)) == Some(JokerId::Arrowhead),
        bearer(gist("j_onyx_agate"@)) == Some(JokerId::OnyxAgate),
        bearer(gist("j_glass"@)) == Some(JokerId::Glass),
{
    reveal(gist);
    reveal(bearer);
    reveal_strlit("j_ticket");
    reveal_strlit("j_mr_bones");
    reveal_strlit("j_acrobat");
    reveal_strlit("j_sock_and_buskin");
    reveal_strlit("j_swashbuckler");
    reveal_strlit("j_troubadour");
    reveal_strlit("j_certificate");
    reveal_strlit("j_smeared");
    reveal_strlit("j_throwback");
    reveal_strlit("j_hanging_chad");
    reveal_strlit("j_rough_gem");
    reveal_strlit("j_bloodstone");
    reveal_strlit("j_arrowhead");
    reveal_strlit("j_onyx_agate");
    reveal_strlit("j_glass");
}

proof fn lemma_bearers_from_120()
    ensures
        bearer(gist("j_ring_master"@)) == Some(JokerId::RingMaster),
        bearer(gist("j_flower_pot"@)) == Some(JokerId::FlowerPot),
        bearer(gist("j_blueprint"@)) == Some(JokerId::Blueprint),
        bearer(gist("j_wee"@)) == Some(JokerId::Wee),
        bearer(gist("j_merry_andy"@)) == Some(JokerId::MerryAndy),
        bearer(gist("j_oops"@)) == Some(JokerId::Oops),
        bearer(gist("j_idol"@)) == Some(JokerId::Idol),
        bearer(gist("j_seeing_double"@)) == Some(JokerId::SeeingDouble),
        bearer(gist("j_matador"@)) == Some(JokerId::Matador),
        bearer(gist("j_hit_the_road"@)) == Some(JokerId::HitTheRoad),
        bearer(gist("j_duo"@)) == Some(JokerId::Duo),
        bearer(gist("j_trio"@)) == Some(JokerId::Trio),
        bearer(gist("j_family"@)) == Some(JokerId::Family),
        bearer(gist("j_order"@)) == Some(JokerId::Order),
        bearer(gist("j_tribe"@)) == Some(JokerId::Tribe),
{
    reveal(gist);
    reveal(bearer);
    reveal_strlit("j_ring_master");
    reveal_strlit("j_flower_pot");
    reveal_strlit("j_blueprint");
    reveal_strlit("j_wee");
    reveal_strlit("j_merry_andy");
    reveal_strlit("j_oops");
    reveal_strlit("j_idol");
    reveal_strlit("j_seeing_double");
    reveal_strlit("j_matador");
    reveal_strlit("j_hit_the_road");
    reveal_strlit("j_duo");
    reveal_strlit("j_trio");
    reveal_strlit("j_family");
    reveal_strlit("j_order");
    reveal_strlit("j_tribe");
}

proof fn lemma_bearers_from_135()
    ensures
        bearer(gist("j_stuntman"@)) == Some(JokerId::Stuntman),
        bearer(gist("j_invisible"@)) == Some(JokerId::Invisible),
        bearer(gist("j_brainstorm"@)) == Some(JokerId::Brainstorm),
        bearer(gist("j_satellite"@)) == Some(JokerId::Satellite),
        bearer(gist("j_shoot_the_moon"@)) == Some(JokerId::ShootTheMoon),
        bearer(gist("j_drivers_license"@)) == Some(JokerId::DriversLicense),
        bearer(gist("j_cartomancer"@)) == Some(JokerId::Cartomancer),
        bearer(gist("j_astronomer"@)) == Some(JokerId::Astronomer),
        bearer(gist("j_burnt"@)) == Some(JokerId::Burnt),
        bearer(gist("j_bootstraps"@)) == Some(JokerId::Bootstraps),
        bearer(gist("j_caino"@)) == Some(JokerId::Caino),
        bearer(gist("j_triboulet"@)) == Some(JokerId::Triboulet),
        bearer(gist("j_yorick"@)) == Some(JokerId::Yorick),
        bearer(gist("j_chicot"@)) == Some(JokerId::Chicot),
        bearer(gist("j_perkeo"@)) == Some(JokerId::Perkeo),
{
    reveal(gist);
    reveal(bearer);
    reveal_strlit("j_stuntman");
    reveal_strlit("j_invisible");
    reveal_strlit("j_brainstorm");
    reveal_strlit("j_satellite");
    reveal_strlit("j_shoot_the_moon");
    reveal_strlit("j_drivers_license");
    reveal_strlit("j_cartomancer");
    reveal_strlit("j_astronomer");
    reveal_strlit("j_burnt");
    reveal_strlit("j_bootstraps");
    reveal_strlit("j_caino");
    reveal_strlit("j_triboulet");
    reveal_strlit("j_yorick");
    reveal_strlit("j_chicot");
    reveal_strlit("j_perkeo");
}

/// A key gives its joker away.
proof fn lemma_bearer(id: JokerId)
    ensures
        bearer(gist(id.row().key@)) == Some(id),
        id.row().id == id,
{
    reveal(JokerId::row);
    lemma_bearers_from_0();
    lemma_bearers_from_15();
    lemma_bearers_from_30();
    lemma_bearers_from_45();
    lemma_bearers_from_60();
    lemma_bearers_from_75();
    lemma_bearers_from_90();
    lemma_bearers_from_105();
    lemma_bearers_from_120();
    lemma_bearers_from_135();
}

pub proof fn lemma_place(id: JokerId)
    ensures
        0 <= place(id) < 150,
        JokerId::ALL[place(id)] == id,
{
}

proof fn lemma_found_from(id: JokerId, from: nat)
    requires
        from <= place(id),
    ensures
        items::joker_from(id.row().key@, from) == Some(id.row()),
    decreases place(id) - from,
{
    lemma_place(id);
    let other = JokerId::ALL[from as int];
    lemma_bearer(id);
    lemma_bearer(other);
    reveal(registry::joker);
    if registry::joker(from as int).key@ == id.row().key@ {
        assert(other == id);
    } else {
        assert(from < place(id));
        lemma_found_from(id, from + 1);
    }
}

/// The key of a joker is not the mark of an entry that cannot be drawn.
pub proof fn lemma_joker_keys_are_open(id: JokerId)
    ensures
        items::is_open(id.row().key),
{
    lemma_bearer(id);
    assert(bearer(gist(items::unavailable()@)) is None) by {
        reveal(gist);
        reveal(bearer);
        reveal_strlit("UNAVAILABLE");
    }
}

/// No two jokers share a key, and every joker is found by its own.
pub proof fn law_jokers_have_their_own_keys(id: JokerId, other: JokerId)
    ensures
        id.row().key@ == other.row().key@ ==> id == other,
        items::joker_named(id.row().key@) == Some(id.row()),
        id.row().id == id,
{
    lemma_bearer(id);
    lemma_bearer(other);
    lemma_place(id);
    lemma_found_from(id, 0);
}

} // verus!
