//! The registry of jokers, consumables, vouchers, tags and booster packs, each
//! table in the order in which its pool is drawn from.
use crate::double::Double;
use vstd::prelude::*;

verus! {

/// An interned registry key.
pub type Key = &'static str;

/// The kinds of booster packs.
#[derive(Debug, Clone, Copy, PartialEq, Eq, Hash, Structural)]
pub enum PackKind {
    Arcana,
    Celestial,
    Spectral,
    Standard,
    Buffoon,
}

/// The jokers, in pool order.
#[derive(Debug, Clone, Copy, PartialEq, Eq, Hash, Structural)]
pub enum JokerId {
    Joker,
    GreedyJoker,
    LustyJoker,
    WrathfulJoker,
    GluttenousJoker,
    Jolly,
    Zany,
    Mad,
    Crazy,
    Droll,
    Sly,
    Wily,
    Clever,
    Devious,
    Crafty,
    Half,
    Stencil,
    FourFingers,
    Mime,
    CreditCard,
    Ceremonial,
    Banner,
    MysticSummit,
    Marble,
    LoyaltyCard,
    EightBall,
    Misprint,
    Dusk,
    RaisedFist,
    Chaos,
    Fibonacci,
    SteelJoker,
    ScaryFace,
    Abstract,
    DelayedGrat,
    Hack,
    Pareidolia,
    GrosMichel,
    EvenSteven,
    OddTodd,
    Scholar,
    Business,
    Supernova,
    RideTheBus,
    Space,
    Egg,
    Burglar,
    Blackboard,
    Runner,
    IceCream,
    Dna,
    Splash,
    BlueJoker,
    SixthSense,
    Constellation,
    Hiker,
    Faceless,
    GreenJoker,
    Superposition,
    TodoList,
    Cavendish,
    CardSharp,
    RedCard,
    Madness,
    Square,
    Seance,
    RiffRaff,
    Vampire,
    Shortcut,
    Hologram,
    Vagabond,
    Baron,
    Cloud9,
    Rocket,
    Obelisk,
    MidasMask,
    Luchador,
    Photograph,
    Gift,
    TurtleBean,
    Erosion,
    ReservedParking,
    Mail,
    ToTheMoon,
    Hallucination,
    FortuneTeller,
    Juggler,
    Drunkard,
    Stone,
    Golden,
    LuckyCat,
    Baseball,
    Bull,
    DietCola,
    Trading,
    Flash,
    Popcorn,
    Trousers,
    Ancient,
    Ramen,
    WalkieTalkie,
    Selzer,
    Castle,
    Smiley,
    Campfire,
    Ticket,
    MrBones,
    Acrobat,
    SockAndBuskin,
    Swashbuckler,
    Troubadour,
    Certificate,
    Smeared,
    Throwback,
    HangingChad,
    RoughGem,
    Bloodstone,
    Arrowhead,
    OnyxAgate,
    Glass,
    RingMaster,
    FlowerPot,
    Blueprint,
    Wee,
    MerryAndy,
    Oops,
    Idol,
    SeeingDouble,
    Matador,
    HitTheRoad,
    Duo,
    Trio,
    Family,
    Order,
    Tribe,
    Stuntman,
    Invisible,
    Brainstorm,
    Satellite,
    ShootTheMoon,
    DriversLicense,
    Cartomancer,
    Astronomer,
    Burnt,
    Bootstraps,
    Caino,
    Triboulet,
    Yorick,
    Chicot,
    Perkeo,
}

/// What the registry holds of a joker.
#[derive(Debug, Clone, Copy, PartialEq, Eq)]
pub struct JokerMeta {
    pub id: JokerId,
    pub key: Key,
    pub name: &'static str,
    pub cost: i64,
    /// 1 common, 2 uncommon, 3 rare, 4 legendary.
    pub rarity: u8,
    /// Offered only while some playing card has this enhancement.
    pub enhancement_gate: Option<Key>,
    /// Not offered once this flag is set.
    pub no_pool_flag: Option<Key>,
    /// Offered only once this flag is set.
    pub yes_pool_flag: Option<Key>,
}

/// What the registry holds of a consumable.
#[derive(Debug, Clone, Copy, PartialEq, Eq)]
pub struct ConsumableMeta {
    pub key: Key,
    pub cost: i64,
    /// How many cards it may be used on at most; 0 where it takes none.
    pub max_highlighted: i64,
    /// How many cards it takes at least.
    pub min_highlighted: i64,
    /// Never drawn from the pool.
    pub hidden: bool,
}

/// What the registry holds of a voucher.
#[derive(Debug, Clone, Copy, PartialEq, Eq)]
pub struct VoucherMeta {
    pub key: Key,
    pub cost: i64,
    /// The voucher that must be redeemed before.
    pub requires: Option<Key>,
}

/// What the registry holds of a tag.
#[derive(Debug, Clone, Copy, PartialEq, Eq)]
pub struct TagMeta {
    pub key: Key,
    /// The first ante at which it is offered.
    pub min_ante: Option<i64>,
}

/// What the registry holds of a booster pack.
#[derive(Debug, Clone, Copy, PartialEq, Eq)]
pub struct BoosterMeta {
    pub key: Key,
    pub kind: PackKind,
    pub cost: i64,
    /// How many cards are in it.
    pub cards: usize,
    /// How many of them may be taken.
    pub choose: u8,
    pub weight: Double,
}

pub open spec fn joker_row(
    id: JokerId,
    key: Key,
    name: &'static str,
    rarity: u8,
    cost: i64,
    gate: Option<Key>,
    no_flag: Option<Key>,
    yes_flag: Option<Key>,
) -> JokerMeta {
    JokerMeta {
        id,
        key,
        name,
        cost,
        rarity,
        enhancement_gate: gate,
        no_pool_flag: no_flag,
        yes_pool_flag: yes_flag,
    }
}

fn make_joker(
    id: JokerId,
    key: Key,
    name: &'static str,
    rarity: u8,
    cost: i64,
    gate: Option<Key>,
    no_flag: Option<Key>,
    yes_flag: Option<Key>,
) -> (r: JokerMeta)
    ensures
        r == joker_row(id, key, name, rarity, cost, gate, no_flag, yes_flag),
{
    JokerMeta {
        id,
        key,
        name,
        cost,
        rarity,
        enhancement_gate: gate,
        no_pool_flag: no_flag,
        yes_pool_flag: yes_flag,
    }
}

impl JokerId {
    /// The jokers in pool order.
    pub const ALL: [JokerId; 150] = [
        JokerId::Joker,
        JokerId::GreedyJoker,
        JokerId::LustyJoker,
        JokerId::WrathfulJoker,
        JokerId::GluttenousJoker,
        JokerId::Jolly,
        JokerId::Zany,
        JokerId::Mad,
        JokerId::Crazy,
        JokerId::Droll,
        JokerId::Sly,
        JokerId::Wily,
        JokerId::Clever,
        JokerId::Devious,
        JokerId::Crafty,
        JokerId::Half,
        JokerId::Stencil,
        JokerId::FourFingers,
        JokerId::Mime,
        JokerId::CreditCard,
        JokerId::Ceremonial,
        JokerId::Banner,
        JokerId::MysticSummit,
        JokerId::Marble,
        JokerId::LoyaltyCard,
        JokerId::EightBall,
        JokerId::Misprint,
        JokerId::Dusk,
        JokerId::RaisedFist,
        JokerId::Chaos,
        JokerId::Fibonacci,
        JokerId::SteelJoker,
        JokerId::ScaryFace,
        JokerId::Abstract,
        JokerId::DelayedGrat,
        JokerId::Hack,
        JokerId::Pareidolia,
        JokerId::GrosMichel,
        JokerId::EvenSteven,
        JokerId::OddTodd,
        JokerId::Scholar,
        JokerId::Business,
        JokerId::Supernova,
        JokerId::RideTheBus,
        JokerId::Space,
        JokerId::Egg,
        JokerId::Burglar,
        JokerId::Blackboard,
        JokerId::Runner,
        JokerId::IceCream,
        JokerId::Dna,
        JokerId::Splash,
        JokerId::BlueJoker,
        JokerId::SixthSense,
        JokerId::Constellation,
        JokerId::Hiker,
        JokerId::Faceless,
        JokerId::GreenJoker,
        JokerId::Superposition,
        JokerId::TodoList,
        JokerId::Cavendish,
        JokerId::CardSharp,
        JokerId::RedCard,
        JokerId::Madness,
        JokerId::Square,
        JokerId::Seance,
        JokerId::RiffRaff,
        JokerId::Vampire,
        JokerId::Shortcut,
        JokerId::Hologram,
        JokerId::Vagabond,
        JokerId::Baron,
        JokerId::Cloud9,
        JokerId::Rocket,
        JokerId::Obelisk,
        JokerId::MidasMask,
        JokerId::Luchador,
        JokerId::Photograph,
        JokerId::Gift,
        JokerId::TurtleBean,
        JokerId::Erosion,
        JokerId::ReservedParking,
        JokerId::Mail,
        JokerId::ToTheMoon,
        JokerId::Hallucination,
        JokerId::FortuneTeller,
        JokerId::Juggler,
        JokerId::Drunkard,
        JokerId::Stone,
        JokerId::Golden,
        JokerId::LuckyCat,
        JokerId::Baseball,
        JokerId::Bull,
        JokerId::DietCola,
        JokerId::Trading,
        JokerId::Flash,
        JokerId::Popcorn,
        JokerId::Trousers,
        JokerId::Ancient,
        JokerId::Ramen,
        JokerId::WalkieTalkie,
        JokerId::Selzer,
        JokerId::Castle,
        JokerId::Smiley,
        JokerId::Campfire,
        JokerId::Ticket,
        JokerId::MrBones,
        JokerId::Acrobat,
        JokerId::SockAndBuskin,
        JokerId::Swashbuckler,
        JokerId::Troubadour,
        JokerId::Certificate,
        JokerId::Smeared,
        JokerId::Throwback,
        JokerId::HangingChad,
        JokerId::RoughGem,
        JokerId::Bloodstone,
        JokerId::Arrowhead,
        JokerId::OnyxAgate,
        JokerId::Glass,
        JokerId::RingMaster,
        JokerId::FlowerPot,
        JokerId::Blueprint,
        JokerId::Wee,
        JokerId::MerryAndy,
        JokerId::Oops,
        JokerId::Idol,
        JokerId::SeeingDouble,
        JokerId::Matador,
        JokerId::HitTheRoad,
        JokerId::Duo,
        JokerId::Trio,
        JokerId::Family,
        JokerId::Order,
        JokerId::Tribe,
        JokerId::Stuntman,
        JokerId::Invisible,
        JokerId::Brainstorm,
        JokerId::Satellite,
        JokerId::ShootTheMoon,
        JokerId::DriversLicense,
        JokerId::Cartomancer,
        JokerId::Astronomer,
        JokerId::Burnt,
        JokerId::Bootstraps,
        JokerId::Caino,
        JokerId::Triboulet,
        JokerId::Yorick,
        JokerId::Chicot,
        JokerId::Perkeo,
    ];

    /// The registry row of a joker.
    #[verifier::opaque]
    pub open spec fn row(self) -> JokerMeta {
        match self {
            JokerId::Joker => joker_row(
                JokerId::Joker,
                "j_joker",
                "Joker",
                1,
                2,
                None,
                None,
                None,
            ),
            JokerId::GreedyJoker => joker_row(
                JokerId::GreedyJoker,
                "j_greedy_joker",
                "Greedy Joker",
                1,
                5,
                None,
                None,
                None,
            ),
            JokerId::LustyJoker => joker_row(
                JokerId::LustyJoker,
                "j_lusty_joker",
                "Lusty Joker",
                1,
                5,
                None,
                None,
                None,
            ),
            JokerId::WrathfulJoker => joker_row(
                JokerId::WrathfulJoker,
                "j_wrathful_joker",
                "Wrathful Joker",
                1,
                5,
                None,
                None,
                None,
            ),
            JokerId::GluttenousJoker => joker_row(
                JokerId::GluttenousJoker,
                "j_gluttenous_joker",
                "Gluttonous Joker",
                1,
                5,
                None,
                None,
                None,
            ),
            JokerId::Jolly => joker_row(
                JokerId::Jolly,
                "j_jolly",
                "Jolly Joker",
                1,
                3,
                None,
                None,
                None,
            ),
            JokerId::Zany => joker_row(
                JokerId::Zany,
                "j_zany",
                "Zany Joker",
                1,
                4,
                None,
                None,
                None,
            ),
            JokerId::Mad => joker_row(
                JokerId::Mad,
                "j_mad",
                "Mad Joker",
                1,
                4,
                None,
                None,
                None,
            ),
            JokerId::Crazy => joker_row(
                JokerId::Crazy,
                "j_crazy",
                "Crazy Joker",
                1,
                4,
                None,
                None,
                None,
            ),
            JokerId::Droll => joker_row(
                JokerId::Droll,
                "j_droll",
                "Droll Joker",
                1,
                4,
                None,
                None,
                None,
            ),
            JokerId::Sly => joker_row(
                JokerId::Sly,
                "j_sly",
                "Sly Joker",
                1,
                3,
                None,
                None,
                None,
            ),
            JokerId::Wily => joker_row(
                JokerId::Wily,
                "j_wily",
                "Wily Joker",
                1,
                4,
                None,
                None,
                None,
            ),
            JokerId::Clever => joker_row(
                JokerId::Clever,
                "j_clever",
                "Clever Joker",
                1,
                4,
                None,
                None,
                None,
            ),
            JokerId::Devious => joker_row(
                JokerId::Devious,
                "j_devious",
                "Devious Joker",
                1,
                4,
                None,
                None,
                None,
            ),
            JokerId::Crafty => joker_row(
                JokerId::Crafty,
                "j_crafty",
                "Crafty Joker",
                1,
                4,
                None,
                None,
                None,
            ),
            JokerId::Half => joker_row(
                JokerId::Half,
                "j_half",
                "Half Joker",
                1,
                5,
                None,
                None,
                None,
            ),
            JokerId::Stencil => joker_row(
                JokerId::Stencil,
                "j_stencil",
                "Joker Stencil",
                2,
                8,
                None,
                None,
                None,
            ),
            JokerId::FourFingers => joker_row(
                JokerId::FourFingers,
                "j_four_fingers",
                "Four Fingers",
                2,
                7,
                None,
                None,
                None,
            ),
            JokerId::Mime => joker_row(
                JokerId::Mime,
                "j_mime",
                "Mime",
                2,
                5,
                None,
                None,
                None,
            ),
            JokerId::CreditCard => joker_row(
                JokerId::CreditCard,
                "j_credit_card",
                "Credit Card",
                1,
                1,
                None,
                None,
                None,
            ),
            JokerId::Ceremonial => joker_row(
                JokerId::Ceremonial,
                "j_ceremonial",
                "Ceremonial Dagger",
                2,
                6,
                None,
                None,
                None,
            ),
            JokerId::Banner => joker_row(
                JokerId::Banner,
                "j_banner",
                "Banner",
                1,
                5,
                None,
                None,
                None,
            ),
            JokerId::MysticSummit => joker_row(
                JokerId::MysticSummit,
                "j_mystic_summit",
                "Mystic Summit",
                1,
                5,
                None,
                None,
                None,
            ),
            JokerId::Marble => joker_row(
                JokerId::Marble,
                "j_marble",
                "Marble Joker",
                2,
                6,
                None,
                None,
                None,
            ),
            JokerId::LoyaltyCard => joker_row(
                JokerId::LoyaltyCard,
                "j_loyalty_card",
                "Loyalty Card",
                2,
                5,
                None,
                None,
                None,
            ),
            JokerId::EightBall => joker_row(
                JokerId::EightBall,
                "j_8_ball",
                "8 Ball",
                1,
                5,
                None,
                None,
                None,
            ),
            JokerId::Misprint => joker_row(
                JokerId::Misprint,
                "j_misprint",
                "Misprint",
                1,
                4,
                None,
                None,
                None,
            ),
            JokerId::Dusk => joker_row(
                JokerId::Dusk,
                "j_dusk",
                "Dusk",
                2,
                5,
                None,
                None,
                None,
            ),
            JokerId::RaisedFist => joker_row(
                JokerId::RaisedFist,
                "j_raised_fist",
                "Raised Fist",
                1,
                5,
                None,
                None,
                None,
            ),
            JokerId::Chaos => joker_row(
                JokerId::Chaos,
                "j_chaos",
                "Chaos the Clown",
                1,
                4,
                None,
                None,
                None,
            ),
            JokerId::Fibonacci => joker_row(
                JokerId::Fibonacci,
                "j_fibonacci",
                "Fibonacci",
                2,
                8,
                None,
                None,
                None,
            ),
            JokerId::SteelJoker => joker_row(
                JokerId::SteelJoker,
                "j_steel_joker",
                "Steel Joker",
                2,
                7,
                Some("m_steel"),
                None,
                None,
            ),
            JokerId::ScaryFace => joker_row(
                JokerId::ScaryFace,
                "j_scary_face",
                "Scary Face",
                1,
                4,
                None,
                None,
                None,
            ),
            JokerId::Abstract => joker_row(
                JokerId::Abstract,
                "j_abstract",
                "Abstract Joker",
                1,
                4,
                None,
                None,
                None,
            ),
            JokerId::DelayedGrat => joker_row(
                JokerId::DelayedGrat,
                "j_delayed_grat",
                "Delayed Gratification",
                1,
                4,
                None,
                None,
                None,
            ),
            JokerId::Hack => joker_row(
                JokerId::Hack,
                "j_hack",
                "Hack",
                2,
                6,
                None,
                None,
                None,
            ),
            JokerId::Pareidolia => joker_row(
                JokerId::Pareidolia,
                "j_pareidolia",
                "Pareidolia",
                2,
                5,
                None,
                None,
                None,
            ),
            JokerId::GrosMichel => joker_row(
                JokerId::GrosMichel,
                "j_gros_michel",
                "Gros Michel",
                1,
                5,
                None,
                Some("gros_michel_extinct"),
                None,
            ),
            JokerId::EvenSteven => joker_row(
                JokerId::EvenSteven,
                "j_even_steven",
                "Even Steven",
                1,
                4,
                None,
                None,
                None,
            ),
            JokerId::OddTodd => joker_row(
                JokerId::OddTodd,
                "j_odd_todd",
                "Odd Todd",
                1,
                4,
                None,
                None,
                None,
            ),
            JokerId::Scholar => joker_row(
                JokerId::Scholar,
                "j_scholar",
                "Scholar",
                1,
                4,
                None,
                None,
                None,
            ),
            JokerId::Business => joker_row(
                JokerId::Business,
                "j_business",
                "Business Card",
                1,
                4,
                None,
                None,
                None,
            ),
            JokerId::Supernova => joker_row(
                JokerId::Supernova,
                "j_supernova",
                "Supernova",
                1,
                5,
                None,
                None,
                None,
            ),
            JokerId::RideTheBus => joker_row(
                JokerId::RideTheBus,
                "j_ride_the_bus",
                "Ride the Bus",
                1,
                6,
                None,
                None,
                None,
            ),
            JokerId::Space => joker_row(
                JokerId::Space,
                "j_space",
                "Space Joker",
                2,
                5,
                None,
                None,
                None,
            ),
            JokerId::Egg => joker_row(
                JokerId::Egg,
                "j_egg",
                "Egg",
                1,
                4,
                None,
                None,
                None,
            ),
            JokerId::Burglar => joker_row(
                JokerId::Burglar,
                "j_burglar",
                "Burglar",
                2,
                6,
                None,
                None,
                None,
            ),
            JokerId::Blackboard => joker_row(
                JokerId::Blackboard,
                "j_blackboard",
                "Blackboard",
                2,
                6,
                None,
                None,
                None,
            ),
            JokerId::Runner => joker_row(
                JokerId::Runner,
                "j_runner",
                "Runner",
                1,
                5,
                None,
                None,
                None,
            ),
            JokerId::IceCream => joker_row(
                JokerId::IceCream,
                "j_ice_cream",
                "Ice Cream",
                1,
                5,
                None,
                None,
                None,
            ),
            JokerId::Dna => joker_row(
                JokerId::Dna,
                "j_dna",
                "DNA",
                3,
                8,
                None,
                None,
                None,
            ),
            JokerId::Splash => joker_row(
                JokerId::Splash,
                "j_splash",
                "Splash",
                1,
                3,
                None,
                None,
                None,
            ),
            JokerId::BlueJoker => joker_row(
                JokerId::BlueJoker,
                "j_blue_joker",
                "Blue Joker",
                1,
                5,
                None,
                None,
                None,
            ),
            JokerId::SixthSense => joker_row(
                JokerId::SixthSense,
                "j_sixth_sense",
                "Sixth Sense",
                2,
                6,
                None,
                None,
                None,
            ),
            JokerId::Constellation => joker_row(
                JokerId::Constellation,
                "j_constellation",
                "Constellation",
                2,
                6,
                None,
                None,
                None,
            ),
            JokerId::Hiker => joker_row(
                JokerId::Hiker,
                "j_hiker",
                "Hiker",
                2,
                5,
                None,
                None,
                None,
            ),
            JokerId::Faceless => joker_row(
                JokerId::Faceless,
                "j_faceless",
                "Faceless Joker",
                1,
                4,
                None,
                None,
                None,
            ),
            JokerId::GreenJoker => joker_row(
                JokerId::GreenJoker,
                "j_green_joker",
                "Green Joker",
                1,
                4,
                None,
                None,
                None,
            ),
            JokerId::Superposition => joker_row(
                JokerId::Superposition,
                "j_superposition",
                "Superposition",
                1,
                4,
                None,
                None,
                None,
            ),
            JokerId::TodoList => joker_row(
                JokerId::TodoList,
                "j_todo_list",
                "To Do List",
                1,
                4,
                None,
                None,
                None,
            ),
            JokerId::Cavendish => joker_row(
                JokerId::Cavendish,
                "j_cavendish",
                "Cavendish",
                1,
                4,
                None,
                None,
                Some("gros_michel_extinct"),
            ),
            JokerId::CardSharp => joker_row(
                JokerId::CardSharp,
                "j_card_sharp",
                "Card Sharp",
                2,
                6,
                None,
                None,
                None,
            ),
            JokerId::RedCard => joker_row(
                JokerId::RedCard,
                "j_red_card",
                "Red Card",
                1,
                5,
                None,
                None,
                None,
            ),
            JokerId::Madness => joker_row(
                JokerId::Madness,
                "j_madness",
                "Madness",
                2,
                7,
                None,
                None,
                None,
            ),
            JokerId::Square => joker_row(
                JokerId::Square,
                "j_square",
                "Square Joker",
                1,
                4,
                None,
                None,
                None,
            ),
            JokerId::Seance => joker_row(
                JokerId::Seance,
                "j_seance",
                "Seance",
                2,
                6,
                None,
                None,
                None,
            ),
            JokerId::RiffRaff => joker_row(
                JokerId::RiffRaff,
                "j_riff_raff",
                "Riff-raff",
                1,
                6,
                None,
                None,
                None,
            ),
            JokerId::Vampire => joker_row(
                JokerId::Vampire,
                "j_vampire",
                "Vampire",
                2,
                7,
                None,
                None,
                None,
            ),
            JokerId::Shortcut => joker_row(
                JokerId::Shortcut,
                "j_shortcut",
                "Shortcut",
                2,
                7,
                None,
                None,
                None,
            ),
            JokerId::Hologram => joker_row(
                JokerId::Hologram,
                "j_hologram",
                "Hologram",
                2,
                7,
                None,
                None,
                None,
            ),
            JokerId::Vagabond => joker_row(
                JokerId::Vagabond,
                "j_vagabond",
                "Vagabond",
                3,
                8,
                None,
                None,
                None,
            ),
            JokerId::Baron => joker_row(
                JokerId::Baron,
                "j_baron",
                "Baron",
                3,
                8,
                None,
                None,
                None,
            ),
            JokerId::Cloud9 => joker_row(
                JokerId::Cloud9,
                "j_cloud_9",
                "Cloud 9",
                2,
                7,
                None,
                None,
                None,
            ),
            JokerId::Rocket => joker_row(
                JokerId::Rocket,
                "j_rocket",
                "Rocket",
                2,
                6,
                None,
                None,
                None,
            ),
            JokerId::Obelisk => joker_row(
                JokerId::Obelisk,
                "j_obelisk",
                "Obelisk",
                3,
                8,
                None,
                None,
                None,
            ),
            JokerId::MidasMask => joker_row(
                JokerId::MidasMask,
                "j_midas_mask",
                "Midas Mask",
                2,
                7,
                None,
                None,
                None,
            ),
            JokerId::Luchador => joker_row(
                JokerId::Luchador,
                "j_luchador",
                "Luchador",
                2,
                5,
                None,
                None,
                None,
            ),
            JokerId::Photograph => joker_row(
                JokerId::Photograph,
                "j_photograph",
                "Photograph",
                1,
                5,
                None,
                None,
                None,
            ),
            JokerId::Gift => joker_row(
                JokerId::Gift,
                "j_gift",
                "Gift Card",
                2,
                6,
                None,
                None,
                None,
            ),
            JokerId::TurtleBean => joker_row(
                JokerId::TurtleBean,
                "j_turtle_bean",
                "Turtle Bean",
                2,
                6,
                None,
                None,
                None,
            ),
            JokerId::Erosion => joker_row(
                JokerId::Erosion,
                "j_erosion",
                "Erosion",
                2,
                6,
                None,
                None,
                None,
            ),
            JokerId::ReservedParking => joker_row(
                JokerId::ReservedParking,
                "j_reserved_parking",
                "Reserved Parking",
                1,
                6,
                None,
                None,
                None,
            ),
            JokerId::Mail => joker_row(
                JokerId::Mail,
                "j_mail",
                "Mail-In Rebate",
                1,
                4,
                None,
                None,
                None,
            ),
            JokerId::ToTheMoon => joker_row(
                JokerId::ToTheMoon,
                "j_to_the_moon",
                "To the Moon",
                2,
                5,
                None,
                None,
                None,
            ),
            JokerId::Hallucination => joker_row(
                JokerId::Hallucination,
                "j_hallucination",
                "Hallucination",
                1,
                4,
                None,
                None,
                None,
            ),
            JokerId::FortuneTeller => joker_row(
                JokerId::FortuneTeller,
                "j_fortune_teller",
                "Fortune Teller",
                1,
                6,
                None,
                None,
                None,
            ),
            JokerId::Juggler => joker_row(
                JokerId::Juggler,
                "j_juggler",
                "Juggler",
                1,
                4,
                None,
                None,
                None,
            ),
            JokerId::Drunkard => joker_row(
                JokerId::Drunkard,
                "j_drunkard",
                "Drunkard",
                1,
                4,
                None,
                None,
                None,
            ),
            JokerId::Stone => joker_row(
                JokerId::Stone,
                "j_stone",
                "Stone Joker",
                2,
                6,
                Some("m_stone"),
                None,
                None,
            ),
            JokerId::Golden => joker_row(
                JokerId::Golden,
                "j_golden",
                "Golden Joker",
                1,
                6,
                None,
                None,
                None,
            ),
            JokerId::LuckyCat => joker_row(
                JokerId::LuckyCat,
                "j_lucky_cat",
                "Lucky Cat",
                2,
                6,
                Some("m_lucky"),
                None,
                None,
            ),
            JokerId::Baseball => joker_row(
                JokerId::Baseball,
                "j_baseball",
                "Baseball Card",
                3,
                8,
                None,
                None,
                None,
            ),
            JokerId::Bull => joker_row(
                JokerId::Bull,
                "j_bull",
                "Bull",
                2,
                6,
                None,
                None,
                None,
            ),
            JokerId::DietCola => joker_row(
                JokerId::DietCola,
                "j_diet_cola",
                "Diet Cola",
                2,
                6,
                None,
                None,
                None,
            ),
            JokerId::Trading => joker_row(
                JokerId::Trading,
                "j_trading",
                "Trading Card",
                2,
                6,
                None,
                None,
                None,
            ),
            JokerId::Flash => joker_row(
                JokerId::Flash,
                "j_flash",
                "Flash Card",
                2,
                5,
                None,
                None,
                None,
            ),
            JokerId::Popcorn => joker_row(
                JokerId::Popcorn,
                "j_popcorn",
                "Popcorn",
                1,
                5,
                None,
                None,
                None,
            ),
            JokerId::Trousers => joker_row(
                JokerId::Trousers,
                "j_trousers",
                "Spare Trousers",
                2,
                6,
                None,
                None,
                None,
            ),
            JokerId::Ancient => joker_row(
                JokerId::Ancient,
                "j_ancient",
                "Ancient Joker",
                3,
                8,
                None,
                None,
                None,
            ),
            JokerId::Ramen => joker_row(
                JokerId::Ramen,
                "j_ramen",
                "Ramen",
                2,
                6,
                None,
                None,
                None,
            ),
            JokerId::WalkieTalkie => joker_row(
                JokerId::WalkieTalkie,
                "j_walkie_talkie",
                "Walkie Talkie",
                1,
                4,
                None,
                None,
                None,
            ),
            JokerId::Selzer => joker_row(
                JokerId::Selzer,
                "j_selzer",
                "Seltzer",
                2,
                6,
                None,
                None,
                None,
            ),
            JokerId::Castle => joker_row(
                JokerId::Castle,
                "j_castle",
                "Castle",
                2,
                6,
                None,
                None,
                None,
            ),
            JokerId::Smiley => joker_row(
                JokerId::Smiley,
                "j_smiley",
                "Smiley Face",
                1,
                4,
                None,
                None,
                None,
            ),
            JokerId::Campfire => joker_row(
                JokerId::Campfire,
                "j_campfire",
                "Campfire",
                3,
                9,
                None,
                None,
                None,
            ),
            JokerId::Ticket => joker_row(
                JokerId::Ticket,
                "j_ticket",
                "Golden Ticket",
                1,
                5,
                Some("m_gold"),
                None,
                None,
            ),
            JokerId::MrBones => joker_row(
                JokerId::MrBones,
                "j_mr_bones",
                "Mr. Bones",
                2,
                5,
                None,
                None,
                None,
            ),
            JokerId::Acrobat => joker_row(
                JokerId::Acrobat,
                "j_acrobat",
                "Acrobat",
                2,
                6,
                None,
                None,
                None,
            ),
            JokerId::SockAndBuskin => joker_row(
                JokerId::SockAndBuskin,
                "j_sock_and_buskin",
                "Sock and Buskin",
                2,
                6,
                None,
                None,
                None,
            ),
            JokerId::Swashbuckler => joker_row(
                JokerId::Swashbuckler,
                "j_swashbuckler",
                "Swashbuckler",
                1,
                4,
                None,
                None,
                None,
            ),
            JokerId::Troubadour => joker_row(
                JokerId::Troubadour,
                "j_troubadour",
                "Troubadour",
                2,
                6,
                None,
                None,
                None,
            ),
            JokerId::Certificate => joker_row(
                JokerId::Certificate,
                "j_certificate",
                "Certificate",
                2,
                6,
                None,
                None,
                None,
            ),
            JokerId::Smeared => joker_row(
                JokerId::Smeared,
                "j_smeared",
                "Smeared Joker",
                2,
                7,
                None,
                None,
                None,
            ),
            JokerId::Throwback => joker_row(
                JokerId::Throwback,
                "j_throwback",
                "Throwback",
                2,
                6,
                None,
                None,
                None,
            ),
            JokerId::HangingChad => joker_row(
                JokerId::HangingChad,
                "j_hanging_chad",
                "Hanging Chad",
                1,
                4,
                None,
                None,
                None,
            ),
            JokerId::RoughGem => joker_row(
                JokerId::RoughGem,
                "j_rough_gem",
                "Rough Gem",
                2,
                7,
                None,
                None,
                None,
            ),
            JokerId::Bloodstone => joker_row(
                JokerId::Bloodstone,
                "j_bloodstone",
                "Bloodstone",
                2,
                7,
                None,
                None,
                None,
            ),
            JokerId::Arrowhead => joker_row(
                JokerId::Arrowhead,
                "j_arrowhead",
                "Arrowhead",
                2,
                7,
                None,
                None,
                None,
            ),
            JokerId::OnyxAgate => joker_row(
                JokerId::OnyxAgate,
                "j_onyx_agate",
                "Onyx Agate",
                2,
                7,
                None,
                None,
                None,
            ),
            JokerId::Glass => joker_row(
                JokerId::Glass,
                "j_glass",
                "Glass Joker",
                2,
                6,
                Some("m_glass"),
                None,
                None,
            ),
            JokerId::RingMaster => joker_row(
                JokerId::RingMaster,
                "j_ring_master",
                "Showman",
                2,
                5,
                None,
                None,
                None,
            ),
            JokerId::FlowerPot => joker_row(
                JokerId::FlowerPot,
                "j_flower_pot",
                "Flower Pot",
                2,
                6,
                None,
                None,
                None,
            ),
            JokerId::Blueprint => joker_row(
                JokerId::Blueprint,
                "j_blueprint",
                "Blueprint",
                3,
                10,
                None,
                None,
                None,
            ),
            JokerId::Wee => joker_row(
                JokerId::Wee,
                "j_wee",
                "Wee Joker",
                3,
                8,
                None,
                None,
                None,
            ),
            JokerId::MerryAndy => joker_row(
                JokerId::MerryAndy,
                "j_merry_andy",
                "Merry Andy",
                2,
                7,
                None,
                None,
                None,
            ),
            JokerId::Oops => joker_row(
                JokerId::Oops,
                "j_oops",
                "Oops! All 6s",
                2,
                4,
                None,
                None,
                None,
            ),
            JokerId::Idol => joker_row(
                JokerId::Idol,
                "j_idol",
                "The Idol",
                2,
                6,
                None,
                None,
                None,
            ),
            JokerId::SeeingDouble => joker_row(
                JokerId::SeeingDouble,
                "j_seeing_double",
                "Seeing Double",
                2,
                6,
                None,
                None,
                None,
            ),
            JokerId::Matador => joker_row(
                JokerId::Matador,
                "j_matador",
                "Matador",
                2,
                7,
                None,
                None,
                None,
            ),
            JokerId::HitTheRoad => joker_row(
                JokerId::HitTheRoad,
                "j_hit_the_road",
                "Hit the Road",
                3,
                8,
                None,
                None,
                None,
            ),
            JokerId::Duo => joker_row(
                JokerId::Duo,
                "j_duo",
                "The Duo",
                3,
                8,
                None,
                None,
                None,
            ),
            JokerId::Trio => joker_row(
                JokerId::Trio,
                "j_trio",
                "The Trio",
                3,
                8,
                None,
                None,
                None,
            ),
            JokerId::Family => joker_row(
                JokerId::Family,
                "j_family",
                "The Family",
                3,
                8,
                None,
                None,
                None,
            ),
            JokerId::Order => joker_row(
                JokerId::Order,
                "j_order",
                "The Order",
                3,
                8,
                None,
                None,
                None,
            ),
            JokerId::Tribe => joker_row(
                JokerId::Tribe,
                "j_tribe",
                "The Tribe",
                3,
                8,
                None,
                None,
                None,
            ),
            JokerId::Stuntman => joker_row(
                JokerId::Stuntman,
                "j_stuntman",
                "Stuntman",
                3,
                7,
                None,
                None,
                None,
            ),
            JokerId::Invisible => joker_row(
                JokerId::Invisible,
                "j_invisible",
                "Invisible Joker",
                3,
                8,
                None,
                None,
                None,
            ),
            JokerId::Brainstorm => joker_row(
                JokerId::Brainstorm,
                "j_brainstorm",
                "Brainstorm",
                3,
                10,
                None,
                None,
                None,
            ),
            JokerId::Satellite => joker_row(
                JokerId::Satellite,
                "j_satellite",
                "Satellite",
                2,
                6,
                None,
                None,
                None,
            ),
            JokerId::ShootTheMoon => joker_row(
                JokerId::ShootTheMoon,
                "j_shoot_the_moon",
                "Shoot the Moon",
                1,
                5,
                None,
                None,
                None,
            ),
            JokerId::DriversLicense => joker_row(
                JokerId::DriversLicense,
                "j_drivers_license",
                "Driver's License",
                3,
                7,
                None,
                None,
                None,
            ),
            JokerId::Cartomancer => joker_row(
                JokerId::Cartomancer,
                "j_cartomancer",
                "Cartomancer",
                2,
                6,
                None,
                None,
                None,
            ),
            JokerId::Astronomer => joker_row(
                JokerId::Astronomer,
                "j_astronomer",
                "Astronomer",
                2,
                8,
                None,
                None,
                None,
            ),
            JokerId::Burnt => joker_row(
                JokerId::Burnt,
                "j_burnt",
                "Burnt Joker",
                3,
                8,
                None,
                None,
                None,
            ),
            JokerId::Bootstraps => joker_row(
                JokerId::Bootstraps,
                "j_bootstraps",
                "Bootstraps",
                2,
                7,
                None,
                None,
                None,
            ),
            JokerId::Caino => joker_row(
                JokerId::Caino,
                "j_caino",
                "Caino",
                4,
                20,
                None,
                None,
                None,
            ),
            JokerId::Triboulet => joker_row(
                JokerId::Triboulet,
                "j_triboulet",
                "Triboulet",
                4,
                20,
                None,
                None,
                None,
            ),
            JokerId::Yorick => joker_row(
                JokerId::Yorick,
                "j_yorick",
                "Yorick",
                4,
                20,
                None,
                None,
                None,
            ),
            JokerId::Chicot => joker_row(
                JokerId::Chicot,
                "j_chicot",
                "Chicot",
                4,
                20,
                None,
                None,
                None,
            ),
            JokerId::Perkeo => joker_row(
                JokerId::Perkeo,
                "j_perkeo",
                "Perkeo",
                4,
                20,
                None,
                None,
                None,
            ),
        }
    }

    pub fn meta(self) -> (r: JokerMeta)
        ensures
            r == self.row(),
    {
        proof {
            reveal(JokerId::row);
        }
        match self {
            JokerId::Joker => make_joker(
                JokerId::Joker,
                "j_joker",
                "Joker",
                1,
                2,
                None,
                None,
                None,
            ),
            JokerId::GreedyJoker => make_joker(
                JokerId::GreedyJoker,
                "j_greedy_joker",
                "Greedy Joker",
                1,
                5,
                None,
                None,
                None,
            ),
            JokerId::LustyJoker => make_joker(
                JokerId::LustyJoker,
                "j_lusty_joker",
                "Lusty Joker",
                1,
                5,
                None,
                None,
                None,
            ),
            JokerId::WrathfulJoker => make_joker(
                JokerId::WrathfulJoker,
                "j_wrathful_joker",
                "Wrathful Joker",
                1,
                5,
                None,
                None,
                None,
            ),
            JokerId::GluttenousJoker => make_joker(
                JokerId::GluttenousJoker,
                "j_gluttenous_joker",
                "Gluttonous Joker",
                1,
                5,
                None,
                None,
                None,
            ),
            JokerId::Jolly => make_joker(
                JokerId::Jolly,
                "j_jolly",
                "Jolly Joker",
                1,
                3,
                None,
                None,
                None,
            ),
            JokerId::Zany => make_joker(
                JokerId::Zany,
                "j_zany",
                "Zany Joker",
                1,
                4,
                None,
                None,
                None,
            ),
            JokerId::Mad => make_joker(
                JokerId::Mad,
                "j_mad",
                "Mad Joker",
                1,
                4,
                None,
                None,
                None,
            ),
            JokerId::Crazy => make_joker(
                JokerId::Crazy,
                "j_crazy",
                "Crazy Joker",
                1,
                4,
                None,
                None,
                None,
            ),
            JokerId::Droll => make_joker(
                JokerId::Droll,
                "j_droll",
                "Droll Joker",
                1,
                4,
                None,
                None,
                None,
            ),
            JokerId::Sly => make_joker(
                JokerId::Sly,
                "j_sly",
                "Sly Joker",
                1,
                3,
                None,
                None,
                None,
            ),
            JokerId::Wily => make_joker(
                JokerId::Wily,
                "j_wily",
                "Wily Joker",
                1,
                4,
                None,
                None,
                None,
            ),
            JokerId::Clever => make_joker(
                JokerId::Clever,
                "j_clever",
                "Clever Joker",
                1,
                4,
                None,
                None,
                None,
            ),
            JokerId::Devious => make_joker(
                JokerId::Devious,
                "j_devious",
                "Devious Joker",
                1,
                4,
                None,
                None,
                None,
            ),
            JokerId::Crafty => make_joker(
                JokerId::Crafty,
                "j_crafty",
                "Crafty Joker",
                1,
                4,
                None,
                None,
                None,
            ),
            JokerId::Half => make_joker(
                JokerId::Half,
                "j_half",
                "Half Joker",
                1,
                5,
                None,
                None,
                None,
            ),
            JokerId::Stencil => make_joker(
                JokerId::Stencil,
                "j_stencil",
                "Joker Stencil",
                2,
                8,
                None,
                None,
                None,
            ),
            JokerId::FourFingers => make_joker(
                JokerId::FourFingers,
                "j_four_fingers",
                "Four Fingers",
                2,
                7,
                None,
                None,
                None,
            ),
            JokerId::Mime => make_joker(
                JokerId::Mime,
                "j_mime",
                "Mime",
                2,
                5,
                None,
                None,
                None,
            ),
            JokerId::CreditCard => make_joker(
                JokerId::CreditCard,
                "j_credit_card",
                "Credit Card",
                1,
                1,
                None,
                None,
                None,
            ),
            JokerId::Ceremonial => make_joker(
                JokerId::Ceremonial,
                "j_ceremonial",
                "Ceremonial Dagger",
                2,
                6,
                None,
                None,
                None,
            ),
            JokerId::Banner => make_joker(
                JokerId::Banner,
                "j_banner",
                "Banner",
                1,
                5,
                None,
                None,
                None,
            ),
            JokerId::MysticSummit => make_joker(
                JokerId::MysticSummit,
                "j_mystic_summit",
                "Mystic Summit",
                1,
                5,
                None,
                None,
                None,
            ),
            JokerId::Marble => make_joker(
                JokerId::Marble,
                "j_marble",
                "Marble Joker",
                2,
                6,
                None,
                None,
                None,
            ),
            JokerId::LoyaltyCard => make_joker(
                JokerId::LoyaltyCard,
                "j_loyalty_card",
                "Loyalty Card",
                2,
                5,
                None,
                None,
                None,
            ),
            JokerId::EightBall => make_joker(
                JokerId::EightBall,
                "j_8_ball",
                "8 Ball",
                1,
                5,
                None,
                None,
                None,
            ),
            JokerId::Misprint => make_joker(
                JokerId::Misprint,
                "j_misprint",
                "Misprint",
                1,
                4,
                None,
                None,
                None,
            ),
            JokerId::Dusk => make_joker(
                JokerId::Dusk,
                "j_dusk",
                "Dusk",
                2,
                5,
                None,
                None,
                None,
            ),
            JokerId::RaisedFist => make_joker(
                JokerId::RaisedFist,
                "j_raised_fist",
                "Raised Fist",
                1,
                5,
                None,
                None,
                None,
            ),
            JokerId::Chaos => make_joker(
                JokerId::Chaos,
                "j_chaos",
                "Chaos the Clown",
                1,
                4,
                None,
                None,
                None,
            ),
            JokerId::Fibonacci => make_joker(
                JokerId::Fibonacci,
                "j_fibonacci",
                "Fibonacci",
                2,
                8,
                None,
                None,
                None,
            ),
            JokerId::SteelJoker => make_joker(
                JokerId::SteelJoker,
                "j_steel_joker",
                "Steel Joker",
                2,
                7,
                Some("m_steel"),
                None,
                None,
            ),
            JokerId::ScaryFace => make_joker(
                JokerId::ScaryFace,
                "j_scary_face",
                "Scary Face",
                1,
                4,
                None,
                None,
                None,
            ),
            JokerId::Abstract => make_joker(
                JokerId::Abstract,
                "j_abstract",
                "Abstract Joker",
                1,
                4,
                None,
                None,
                None,
            ),
            JokerId::DelayedGrat => make_joker(
                JokerId::DelayedGrat,
                "j_delayed_grat",
                "Delayed Gratification",
                1,
                4,
                None,
                None,
                None,
            ),
            JokerId::Hack => make_joker(
                JokerId::Hack,
                "j_hack",
                "Hack",
                2,
                6,
                None,
                None,
                None,
            ),
            JokerId::Pareidolia => make_joker(
                JokerId::Pareidolia,
                "j_pareidolia",
                "Pareidolia",
                2,
                5,
                None,
                None,
                None,
            ),
            JokerId::GrosMichel => make_joker(
                JokerId::GrosMichel,
                "j_gros_michel",
                "Gros Michel",
                1,
                5,
                None,
                Some("gros_michel_extinct"),
                None,
            ),
            JokerId::EvenSteven => make_joker(
                JokerId::EvenSteven,
                "j_even_steven",
                "Even Steven",
                1,
                4,
                None,
                None,
                None,
            ),
            JokerId::OddTodd => make_joker(
                JokerId::OddTodd,
                "j_odd_todd",
                "Odd Todd",
                1,
                4,
                None,
                None,
                None,
            ),
            JokerId::Scholar => make_joker(
                JokerId::Scholar,
                "j_scholar",
                "Scholar",
                1,
                4,
                None,
                None,
                None,
            ),
            JokerId::Business => make_joker(
                JokerId::Business,
                "j_business",
                "Business Card",
                1,
                4,
                None,
                None,
                None,
            ),
            JokerId::Supernova => make_joker(
                JokerId::Supernova,
                "j_supernova",
                "Supernova",
                1,
                5,
                None,
                None,
                None,
            ),
            JokerId::RideTheBus => make_joker(
                JokerId::RideTheBus,
                "j_ride_the_bus",
                "Ride the Bus",
                1,
                6,
                None,
                None,
                None,
            ),
            JokerId::Space => make_joker(
                JokerId::Space,
                "j_space",
                "Space Joker",
                2,
                5,
                None,
                None,
                None,
            ),
            JokerId::Egg => make_joker(
                JokerId::Egg,
                "j_egg",
                "Egg",
                1,
                4,
                None,
                None,
                None,
            ),
            JokerId::Burglar => make_joker(
                JokerId::Burglar,
                "j_burglar",
                "Burglar",
                2,
                6,
                None,
                None,
                None,
            ),
            JokerId::Blackboard => make_joker(
                JokerId::Blackboard,
                "j_blackboard",
                "Blackboard",
                2,
                6,
                None,
                None,
                None,
            ),
            JokerId::Runner => make_joker(
                JokerId::Runner,
                "j_runner",
                "Runner",
                1,
                5,
                None,
                None,
                None,
            ),
            JokerId::IceCream => make_joker(
                JokerId::IceCream,
                "j_ice_cream",
                "Ice Cream",
                1,
                5,
                None,
                None,
                None,
            ),
            JokerId::Dna => make_joker(
                JokerId::Dna,
                "j_dna",
                "DNA",
                3,
                8,
                None,
                None,
                None,
            ),
            JokerId::Splash => make_joker(
                JokerId::Splash,
                "j_splash",
                "Splash",
                1,
                3,
                None,
                None,
                None,
            ),
            JokerId::BlueJoker => make_joker(
                JokerId::BlueJoker,
                "j_blue_joker",
                "Blue Joker",
                1,
                5,
                None,
                None,
                None,
            ),
            JokerId::SixthSense => make_joker(
                JokerId::SixthSense,
                "j_sixth_sense",
                "Sixth Sense",
                2,
                6,
                None,
                None,
                None,
            ),
            JokerId::Constellation => make_joker(
                JokerId::Constellation,
                "j_constellation",
                "Constellation",
                2,
                6,
                None,
                None,
                None,
            ),
            JokerId::Hiker => make_joker(
                JokerId::Hiker,
                "j_hiker",
                "Hiker",
                2,
                5,
                None,
                None,
                None,
            ),
            JokerId::Faceless => make_joker(
                JokerId::Faceless,
                "j_faceless",
                "Faceless Joker",
                1,
                4,
                None,
                None,
                None,
            ),
            JokerId::GreenJoker => make_joker(
                JokerId::GreenJoker,
                "j_green_joker",
                "Green Joker",
                1,
                4,
                None,
                None,
                None,
            ),
            JokerId::Superposition => make_joker(
                JokerId::Superposition,
                "j_superposition",
                "Superposition",
                1,
                4,
                None,
                None,
                None,
            ),
            JokerId::TodoList => make_joker(
                JokerId::TodoList,
                "j_todo_list",
                "To Do List",
                1,
                4,
                None,
                None,
                None,
            ),
            JokerId::Cavendish => make_joker(
                JokerId::Cavendish,
                "j_cavendish",
                "Cavendish",
                1,
                4,
                None,
                None,
                Some("gros_michel_extinct"),
            ),
            JokerId::CardSharp => make_joker(
                JokerId::CardSharp,
                "j_card_sharp",
                "Card Sharp",
                2,
                6,
                None,
                None,
                None,
            ),
            JokerId::RedCard => make_joker(
                JokerId::RedCard,
                "j_red_card",
                "Red Card",
                1,
                5,
                None,
                None,
                None,
            ),
            JokerId::Madness => make_joker(
                JokerId::Madness,
                "j_madness",
                "Madness",
                2,
                7,
                None,
                None,
                None,
            ),
            JokerId::Square => make_joker(
                JokerId::Square,
                "j_square",
                "Square Joker",
                1,
                4,
                None,
                None,
                None,
            ),
            JokerId::Seance => make_joker(
                JokerId::Seance,
                "j_seance",
                "Seance",
                2,
                6,
                None,
                None,
                None,
            ),
            JokerId::RiffRaff => make_joker(
                JokerId::RiffRaff,
                "j_riff_raff",
                "Riff-raff",
                1,
                6,
                None,
                None,
                None,
            ),
            JokerId::Vampire => make_joker(
                JokerId::Vampire,
                "j_vampire",
                "Vampire",
                2,
                7,
                None,
                None,
                None,
            ),
            JokerId::Shortcut => make_joker(
                JokerId::Shortcut,
                "j_shortcut",
                "Shortcut",
                2,
                7,
                None,
                None,
                None,
            ),
            JokerId::Hologram => make_joker(
                JokerId::Hologram,
                "j_hologram",
                "Hologram",
                2,
                7,
                None,
                None,
                None,
            ),
            JokerId::Vagabond => make_joker(
                JokerId::Vagabond,
                "j_vagabond",
                "Vagabond",
                3,
                8,
                None,
                None,
                None,
            ),
            JokerId::Baron => make_joker(
                JokerId::Baron,
                "j_baron",
                "Baron",
                3,
                8,
                None,
                None,
                None,
            ),
            JokerId::Cloud9 => make_joker(
                JokerId::Cloud9,
                "j_cloud_9",
                "Cloud 9",
                2,
                7,
                None,
                None,
                None,
            ),
            JokerId::Rocket => make_joker(
                JokerId::Rocket,
                "j_rocket",
                "Rocket",
                2,
                6,
                None,
                None,
                None,
            ),
            JokerId::Obelisk => make_joker(
                JokerId::Obelisk,
                "j_obelisk",
                "Obelisk",
                3,
                8,
                None,
                None,
                None,
            ),
            JokerId::MidasMask => make_joker(
                JokerId::MidasMask,
                "j_midas_mask",
                "Midas Mask",
                2,
                7,
                None,
                None,
                None,
            ),
            JokerId::Luchador => make_joker(
                JokerId::Luchador,
                "j_luchador",
                "Luchador",
                2,
                5,
                None,
                None,
                None,
            ),
            JokerId::Photograph => make_joker(
                JokerId::Photograph,
                "j_photograph",
                "Photograph",
                1,
                5,
                None,
                None,
                None,
            ),
            JokerId::Gift => make_joker(
                JokerId::Gift,
                "j_gift",
                "Gift Card",
                2,
                6,
                None,
                None,
                None,
            ),
            JokerId::TurtleBean => make_joker(
                JokerId::TurtleBean,
                "j_turtle_bean",
                "Turtle Bean",
                2,
                6,
                None,
                None,
                None,
            ),
            JokerId::Erosion => make_joker(
                JokerId::Erosion,
                "j_erosion",
                "Erosion",
                2,
                6,
                None,
                None,
                None,
            ),
            JokerId::ReservedParking => make_joker(
                JokerId::ReservedParking,
                "j_reserved_parking",
                "Reserved Parking",
                1,
                6,
                None,
                None,
                None,
            ),
            JokerId::Mail => make_joker(
                JokerId::Mail,
                "j_mail",
                "Mail-In Rebate",
                1,
                4,
                None,
                None,
                None,
            ),
            JokerId::ToTheMoon => make_joker(
                JokerId::ToTheMoon,
                "j_to_the_moon",
                "To the Moon",
                2,
                5,
                None,
                None,
                None,
            ),
            JokerId::Hallucination => make_joker(
                JokerId::Hallucination,
                "j_hallucination",
                "Hallucination",
                1,
                4,
                None,
                None,
                None,
            ),
            JokerId::FortuneTeller => make_joker(
                JokerId::FortuneTeller,
                "j_fortune_teller",
                "Fortune Teller",
                1,
                6,
                None,
                None,
                None,
            ),
            JokerId::Juggler => make_joker(
                JokerId::Juggler,
                "j_juggler",
                "Juggler",
                1,
                4,
                None,
                None,
                None,
            ),
            JokerId::Drunkard => make_joker(
                JokerId::Drunkard,
                "j_drunkard",
                "Drunkard",
                1,
                4,
                None,
                None,
                None,
            ),
            JokerId::Stone => make_joker(
                JokerId::Stone,
                "j_stone",
                "Stone Joker",
                2,
                6,
                Some("m_stone"),
                None,
                None,
            ),
            JokerId::Golden => make_joker(
                JokerId::Golden,
                "j_golden",
                "Golden Joker",
                1,
                6,
                None,
                None,
                None,
            ),
            JokerId::LuckyCat => make_joker(
                JokerId::LuckyCat,
                "j_lucky_cat",
                "Lucky Cat",
                2,
                6,
                Some("m_lucky"),
                None,
                None,
            ),
            JokerId::Baseball => make_joker(
                JokerId::Baseball,
                "j_baseball",
                "Baseball Card",
                3,
                8,
                None,
                None,
                None,
            ),
            JokerId::Bull => make_joker(
                JokerId::Bull,
                "j_bull",
                "Bull",
                2,
                6,
                None,
                None,
                None,
            ),
            JokerId::DietCola => make_joker(
                JokerId::DietCola,
                "j_diet_cola",
                "Diet Cola",
                2,
                6,
                None,
                None,
                None,
            ),
            JokerId::Trading => make_joker(
                JokerId::Trading,
                "j_trading",
                "Trading Card",
                2,
                6,
                None,
                None,
                None,
            ),
            JokerId::Flash => make_joker(
                JokerId::Flash,
                "j_flash",
                "Flash Card",
                2,
                5,
                None,
                None,
                None,
            ),
            JokerId::Popcorn => make_joker(
                JokerId::Popcorn,
                "j_popcorn",
                "Popcorn",
                1,
                5,
                None,
                None,
                None,
            ),
            JokerId::Trousers => make_joker(
                JokerId::Trousers,
                "j_trousers",
                "Spare Trousers",
                2,
                6,
                None,
                None,
                None,
            ),
            JokerId::Ancient => make_joker(
                JokerId::Ancient,
                "j_ancient",
                "Ancient Joker",
                3,
                8,
                None,
                None,
                None,
            ),
            JokerId::Ramen => make_joker(
                JokerId::Ramen,
                "j_ramen",
                "Ramen",
                2,
                6,
                None,
                None,
                None,
            ),
            JokerId::WalkieTalkie => make_joker(
                JokerId::WalkieTalkie,
                "j_walkie_talkie",
                "Walkie Talkie",
                1,
                4,
                None,
                None,
                None,
            ),
            JokerId::Selzer => make_joker(
                JokerId::Selzer,
                "j_selzer",
                "Seltzer",
                2,
                6,
                None,
                None,
                None,
            ),
            JokerId::Castle => make_joker(
                JokerId::Castle,
                "j_castle",
                "Castle",
                2,
                6,
                None,
                None,
                None,
            ),
            JokerId::Smiley => make_joker(
                JokerId::Smiley,
                "j_smiley",
                "Smiley Face",
                1,
                4,
                None,
                None,
                None,
            ),
            JokerId::Campfire => make_joker(
                JokerId::Campfire,
                "j_campfire",
                "Campfire",
                3,
                9,
                None,
                None,
                None,
            ),
            JokerId::Ticket => make_joker(
                JokerId::Ticket,
                "j_ticket",
                "Golden Ticket",
                1,
                5,
                Some("m_gold"),
                None,
                None,
            ),
            JokerId::MrBones => make_joker(
                JokerId::MrBones,
                "j_mr_bones",
                "Mr. Bones",
                2,
                5,
                None,
                None,
                None,
            ),
            JokerId::Acrobat => make_joker(
                JokerId::Acrobat,
                "j_acrobat",
                "Acrobat",
                2,
                6,
                None,
                None,
                None,
            ),
            JokerId::SockAndBuskin => make_joker(
                JokerId::SockAndBuskin,
                "j_sock_and_buskin",
                "Sock and Buskin",
                2,
                6,
                None,
                None,
                None,
            ),
            JokerId::Swashbuckler => make_joker(
                JokerId::Swashbuckler,
                "j_swashbuckler",
                "Swashbuckler",
                1,
                4,
                None,
                None,
                None,
            ),
            JokerId::Troubadour => make_joker(
                JokerId::Troubadour,
                "j_troubadour",
                "Troubadour",
                2,
                6,
                None,
                None,
                None,
            ),
            JokerId::Certificate => make_joker(
                JokerId::Certificate,
                "j_certificate",
                "Certificate",
                2,
                6,
                None,
                None,
                None,
            ),
            JokerId::Smeared => make_joker(
                JokerId::Smeared,
                "j_smeared",
                "Smeared Joker",
                2,
                7,
                None,
                None,
                None,
            ),
            JokerId::Throwback => make_joker(
                JokerId::Throwback,
                "j_throwback",
                "Throwback",
                2,
                6,
                None,
                None,
                None,
            ),
            JokerId::HangingChad => make_joker(
                JokerId::HangingChad,
                "j_hanging_chad",
                "Hanging Chad",
                1,
                4,
                None,
                None,
                None,
            ),
            JokerId::RoughGem => make_joker(
                JokerId::RoughGem,
                "j_rough_gem",
                "Rough Gem",
                2,
                7,
                None,
                None,
                None,
            ),
            JokerId::Bloodstone => make_joker(
                JokerId::Bloodstone,
                "j_bloodstone",
                "Bloodstone",
                2,
                7,
                None,
                None,
                None,
            ),
            JokerId::Arrowhead => make_joker(
                JokerId::Arrowhead,
                "j_arrowhead",
                "Arrowhead",
                2,
                7,
                None,
                None,
                None,
            ),
            JokerId::OnyxAgate => make_joker(
                JokerId::OnyxAgate,
                "j_onyx_agate",
                "Onyx Agate",
                2,
                7,
                None,
                None,
                None,
            ),
            JokerId::Glass => make_joker(
                JokerId::Glass,
                "j_glass",
                "Glass Joker",
                2,
                6,
                Some("m_glass"),
                None,
                None,
            ),
            JokerId::RingMaster => make_joker(
                JokerId::RingMaster,
                "j_ring_master",
                "Showman",
                2,
                5,
                None,
                None,
                None,
            ),
            JokerId::FlowerPot => make_joker(
                JokerId::FlowerPot,
                "j_flower_pot",
                "Flower Pot",
                2,
                6,
                None,
                None,
                None,
            ),
            JokerId::Blueprint => make_joker(
                JokerId::Blueprint,
                "j_blueprint",
                "Blueprint",
                3,
                10,
                None,
                None,
                None,
            ),
            JokerId::Wee => make_joker(
                JokerId::Wee,
                "j_wee",
                "Wee Joker",
                3,
                8,
                None,
                None,
                None,
            ),
            JokerId::MerryAndy => make_joker(
                JokerId::MerryAndy,
                "j_merry_andy",
                "Merry Andy",
                2,
                7,
                None,
                None,
                None,
            ),
            JokerId::Oops => make_joker(
                JokerId::Oops,
                "j_oops",
                "Oops! All 6s",
                2,
                4,
                None,
                None,
                None,
            ),
            JokerId::Idol => make_joker(
                JokerId::Idol,
                "j_idol",
                "The Idol",
                2,
                6,
                None,
                None,
                None,
            ),
            JokerId::SeeingDouble => make_joker(
                JokerId::SeeingDouble,
                "j_seeing_double",
                "Seeing Double",
                2,
                6,
                None,
                None,
                None,
            ),
            JokerId::Matador => make_joker(
                JokerId::Matador,
                "j_matador",
                "Matador",
                2,
                7,
                None,
                None,
                None,
            ),
            JokerId::HitTheRoad => make_joker(
                JokerId::HitTheRoad,
                "j_hit_the_road",
                "Hit the Road",
                3,
                8,
                None,
                None,
                None,
            ),
            JokerId::Duo => make_joker(
                JokerId::Duo,
                "j_duo",
                "The Duo",
                3,
                8,
                None,
                None,
                None,
            ),
            JokerId::Trio => make_joker(
                JokerId::Trio,
                "j_trio",
                "The Trio",
                3,
                8,
                None,
                None,
                None,
            ),
            JokerId::Family => make_joker(
                JokerId::Family,
                "j_family",
                "The Family",
                3,
                8,
                None,
                None,
                None,
            ),
            JokerId::Order => make_joker(
                JokerId::Order,
                "j_order",
                "The Order",
                3,
                8,
                None,
                None,
                None,
            ),
            JokerId::Tribe => make_joker(
                JokerId::Tribe,
                "j_tribe",
                "The Tribe",
                3,
                8,
                None,
                None,
                None,
            ),
            JokerId::Stuntman => make_joker(
                JokerId::Stuntman,
                "j_stuntman",
                "Stuntman",
                3,
                7,
                None,
                None,
                None,
            ),
            JokerId::Invisible => make_joker(
                JokerId::Invisible,
                "j_invisible",
                "Invisible Joker",
                3,
                8,
                None,
                None,
                None,
            ),
            JokerId::Brainstorm => make_joker(
                JokerId::Brainstorm,
                "j_brainstorm",
                "Brainstorm",
                3,
                10,
                None,
                None,
                None,
            ),
            JokerId::Satellite => make_joker(
                JokerId::Satellite,
                "j_satellite",
                "Satellite",
                2,
                6,
                None,
                None,
                None,
            ),
            JokerId::ShootTheMoon => make_joker(
                JokerId::ShootTheMoon,
                "j_shoot_the_moon",
                "Shoot the Moon",
                1,
                5,
                None,
                None,
                None,
            ),
            JokerId::DriversLicense => make_joker(
                JokerId::DriversLicense,
                "j_drivers_license",
                "Driver's License",
                3,
                7,
                None,
                None,
                None,
            ),
            JokerId::Cartomancer => make_joker(
                JokerId::Cartomancer,
                "j_cartomancer",
                "Cartomancer",
                2,
                6,
                None,
                None,
                None,
            ),
            JokerId::Astronomer => make_joker(
                JokerId::Astronomer,
                "j_astronomer",
                "Astronomer",
                2,
                8,
                None,
                None,
                None,
            ),
            JokerId::Burnt => make_joker(
                JokerId::Burnt,
                "j_burnt",
                "Burnt Joker",
                3,
                8,
                None,
                None,
                None,
            ),
            JokerId::Bootstraps => make_joker(
                JokerId::Bootstraps,
                "j_bootstraps",
                "Bootstraps",
                2,
                7,
                None,
                None,
                None,
            ),
            JokerId::Caino => make_joker(
                JokerId::Caino,
                "j_caino",
                "Caino",
                4,
                20,
                None,
                None,
                None,
            ),
            JokerId::Triboulet => make_joker(
                JokerId::Triboulet,
                "j_triboulet",
                "Triboulet",
                4,
                20,
                None,
                None,
                None,
            ),
            JokerId::Yorick => make_joker(
                JokerId::Yorick,
                "j_yorick",
                "Yorick",
                4,
                20,
                None,
                None,
                None,
            ),
            JokerId::Chicot => make_joker(
                JokerId::Chicot,
                "j_chicot",
                "Chicot",
                4,
                20,
                None,
                None,
                None,
            ),
            JokerId::Perkeo => make_joker(
                JokerId::Perkeo,
                "j_perkeo",
                "Perkeo",
                4,
                20,
                None,
                None,
                None,
            ),
        }
    }

    pub fn key(self) -> (r: &'static str)
        ensures
            r == self.row().key,
    {
        self.meta().key
    }

    pub fn name(self) -> (r: &'static str)
        ensures
            r == self.row().name,
    {
        self.meta().name
    }
}

/// The joker at a place of the pool order.
#[verifier::opaque]
pub open spec fn joker(i: int) -> JokerMeta {
    JokerId::ALL[i].row()
}

pub fn joker_at(i: usize) -> (r: JokerMeta)
    requires
        i < 150,
    ensures
        r == joker(i as int),
{
    proof {
        reveal(joker);
    }
    JokerId::ALL[i].meta()
}

pub open spec fn consumable_row(key: Key, cost: i64, max: i64, min: i64, hidden: bool) -> ConsumableMeta {
    ConsumableMeta { key, cost, max_highlighted: max, min_highlighted: min, hidden }
}

fn make_consumable(key: Key, cost: i64, max: i64, min: i64, hidden: bool) -> (r: ConsumableMeta)
    ensures
        r == consumable_row(key, cost, max, min, hidden),
{
    ConsumableMeta { key, cost, max_highlighted: max, min_highlighted: min, hidden }
}

/// The Tarot cards.
#[verifier::opaque]
pub open spec fn tarot(i: int) -> ConsumableMeta {
    if i == 0 {
        consumable_row("c_fool", 3, 0, 0, false)
    } else if i == 1 {
        consumable_row("c_magician", 3, 2, 0, false)
    } else if i == 2 {
        consumable_row("c_high_priestess", 3, 0, 0, false)
    } else if i == 3 {
        consumable_row("c_empress", 3, 2, 0, false)
    } else if i == 4 {
        consumable_row("c_emperor", 3, 0, 0, false)
    } else if i == 5 {
        consumable_row("c_heirophant", 3, 2, 0, false)
    } else if i == 6 {
        consumable_row("c_lovers", 3, 1, 0, false)
    } else if i == 7 {
        consumable_row("c_chariot", 3, 1, 0, false)
    } else if i == 8 {
        consumable_row("c_justice", 3, 1, 0, false)
    } else if i == 9 {
        consumable_row("c_hermit", 3, 0, 0, false)
    } else if i == 10 {
        consumable_row("c_wheel_of_fortune", 3, 0, 0, false)
    } else if i == 11 {
        consumable_row("c_strength", 3, 2, 0, false)
    } else if i == 12 {
        consumable_row("c_hanged_man", 3, 2, 0, false)
    } else if i == 13 {
        consumable_row("c_death", 3, 2, 2, false)
    } else if i == 14 {
        consumable_row("c_temperance", 3, 0, 0, false)
    } else if i == 15 {
        consumable_row("c_devil", 3, 1, 0, false)
    } else if i == 16 {
        consumable_row("c_tower", 3, 1, 0, false)
    } else if i == 17 {
        consumable_row("c_star", 3, 3, 0, false)
    } else if i == 18 {
        consumable_row("c_moon", 3, 3, 0, false)
    } else if i == 19 {
        consumable_row("c_sun", 3, 3, 0, false)
    } else if i == 20 {
        consumable_row("c_judgement", 3, 0, 0, false)
    } else {
        consumable_row("c_world", 3, 3, 0, false)
    }
}

pub fn tarot_at(i: usize) -> (r: ConsumableMeta)
    requires
        i < 22,
    ensures
        r == tarot(i as int),
{
    proof {
        reveal(tarot);
    }
    if i == 0 {
        make_consumable("c_fool", 3, 0, 0, false)
    } else if i == 1 {
        make_consumable("c_magician", 3, 2, 0, false)
    } else if i == 2 {
        make_consumable("c_high_priestess", 3, 0, 0, false)
    } else if i == 3 {
        make_consumable("c_empress", 3, 2, 0, false)
    } else if i == 4 {
        make_consumable("c_emperor", 3, 0, 0, false)
    } else if i == 5 {
        make_consumable("c_heirophant", 3, 2, 0, false)
    } else if i == 6 {
        make_consumable("c_lovers", 3, 1, 0, false)
    } else if i == 7 {
        make_consumable("c_chariot", 3, 1, 0, false)
    } else if i == 8 {
        make_consumable("c_justice", 3, 1, 0, false)
    } else if i == 9 {
        make_consumable("c_hermit", 3, 0, 0, false)
    } else if i == 10 {
        make_consumable("c_wheel_of_fortune", 3, 0, 0, false)
    } else if i == 11 {
        make_consumable("c_strength", 3, 2, 0, false)
    } else if i == 12 {
        make_consumable("c_hanged_man", 3, 2, 0, false)
    } else if i == 13 {
        make_consumable("c_death", 3, 2, 2, false)
    } else if i == 14 {
        make_consumable("c_temperance", 3, 0, 0, false)
    } else if i == 15 {
        make_consumable("c_devil", 3, 1, 0, false)
    } else if i == 16 {
        make_consumable("c_tower", 3, 1, 0, false)
    } else if i == 17 {
        make_consumable("c_star", 3, 3, 0, false)
    } else if i == 18 {
        make_consumable("c_moon", 3, 3, 0, false)
    } else if i == 19 {
        make_consumable("c_sun", 3, 3, 0, false)
    } else if i == 20 {
        make_consumable("c_judgement", 3, 0, 0, false)
    } else {
        make_consumable("c_world", 3, 3, 0, false)
    }
}

/// The Planet cards.
#[verifier::opaque]
pub open spec fn planet(i: int) -> ConsumableMeta {
    if i == 0 {
        consumable_row("c_mercury", 3, 0, 0, false)
    } else if i == 1 {
        consumable_row("c_venus", 3, 0, 0, false)
    } else if i == 2 {
        consumable_row("c_earth", 3, 0, 0, false)
    } else if i == 3 {
        consumable_row("c_mars", 3, 0, 0, false)
    } else if i == 4 {
        consumable_row("c_jupiter", 3, 0, 0, false)
    } else if i == 5 {
        consumable_row("c_saturn", 3, 0, 0, false)
    } else if i == 6 {
        consumable_row("c_uranus", 3, 0, 0, false)
    } else if i == 7 {
        consumable_row("c_neptune", 3, 0, 0, false)
    } else if i == 8 {
        consumable_row("c_pluto", 3, 0, 0, false)
    } else if i == 9 {
        consumable_row("c_planet_x", 3, 0, 0, false)
    } else if i == 10 {
        consumable_row("c_ceres", 3, 0, 0, false)
    } else {
        consumable_row("c_eris", 3, 0, 0, false)
    }
}

pub fn planet_at(i: usize) -> (r: ConsumableMeta)
    requires
        i < 12,
    ensures
        r == planet(i as int),
{
    proof {
        reveal(planet);
    }
    if i == 0 {
        make_consumable("c_mercury", 3, 0, 0, false)
    } else if i == 1 {
        make_consumable("c_venus", 3, 0, 0, false)
    } else if i == 2 {
        make_consumable("c_earth", 3, 0, 0, false)
    } else if i == 3 {
        make_consumable("c_mars", 3, 0, 0, false)
    } else if i == 4 {
        make_consumable("c_jupiter", 3, 0, 0, false)
    } else if i == 5 {
        make_consumable("c_saturn", 3, 0, 0, false)
    } else if i == 6 {
        make_consumable("c_uranus", 3, 0, 0, false)
    } else if i == 7 {
        make_consumable("c_neptune", 3, 0, 0, false)
    } else if i == 8 {
        make_consumable("c_pluto", 3, 0, 0, false)
    } else if i == 9 {
        make_consumable("c_planet_x", 3, 0, 0, false)
    } else if i == 10 {
        make_consumable("c_ceres", 3, 0, 0, false)
    } else {
        make_consumable("c_eris", 3, 0, 0, false)
    }
}

/// The Spectral cards.
#[verifier::opaque]
pub open spec fn spectral(i: int) -> ConsumableMeta {
    if i == 0 {
        consumable_row("c_familiar", 4, 0, 0, false)
    } else if i == 1 {
        consumable_row("c_grim", 4, 0, 0, false)
    } else if i == 2 {
        consumable_row("c_incantation", 4, 0, 0, false)
    } else if i == 3 {
        consumable_row("c_talisman", 4, 1, 0, false)
    } else if i == 4 {
        consumable_row("c_aura", 4, 0, 0, false)
    } else if i == 5 {
        consumable_row("c_wraith", 4, 0, 0, false)
    } else if i == 6 {
        consumable_row("c_sigil", 4, 0, 0, false)
    } else if i == 7 {
        consumable_row("c_ouija", 4, 0, 0, false)
    } else if i == 8 {
        consumable_row("c_ectoplasm", 4, 0, 0, false)
    } else if i == 9 {
        consumable_row("c_immolate", 4, 0, 0, false)
    } else if i == 10 {
        consumable_row("c_ankh", 4, 0, 0, false)
    } else if i == 11 {
        consumable_row("c_deja_vu", 4, 1, 0, false)
    } else if i == 12 {
        consumable_row("c_hex", 4, 0, 0, false)
    } else if i == 13 {
        consumable_row("c_trance", 4, 1, 0, false)
    } else if i == 14 {
        consumable_row("c_medium", 4, 1, 0, false)
    } else if i == 15 {
        consumable_row("c_cryptid", 4, 1, 0, false)
    } else if i == 16 {
        consumable_row("c_soul", 4, 0, 0, true)
    } else {
        consumable_row("c_black_hole", 4, 0, 0, true)
    }
}

pub fn spectral_at(i: usize) -> (r: ConsumableMeta)
    requires
        i < 18,
    ensures
        r == spectral(i as int),
{
    proof {
        reveal(spectral);
    }
    if i == 0 {
        make_consumable("c_familiar", 4, 0, 0, false)
    } else if i == 1 {
        make_consumable("c_grim", 4, 0, 0, false)
    } else if i == 2 {
        make_consumable("c_incantation", 4, 0, 0, false)
    } else if i == 3 {
        make_consumable("c_talisman", 4, 1, 0, false)
    } else if i == 4 {
        make_consumable("c_aura", 4, 0, 0, false)
    } else if i == 5 {
        make_consumable("c_wraith", 4, 0, 0, false)
    } else if i == 6 {
        make_consumable("c_sigil", 4, 0, 0, false)
    } else if i == 7 {
        make_consumable("c_ouija", 4, 0, 0, false)
    } else if i == 8 {
        make_consumable("c_ectoplasm", 4, 0, 0, false)
    } else if i == 9 {
        make_consumable("c_immolate", 4, 0, 0, false)
    } else if i == 10 {
        make_consumable("c_ankh", 4, 0, 0, false)
    } else if i == 11 {
        make_consumable("c_deja_vu", 4, 1, 0, false)
    } else if i == 12 {
        make_consumable("c_hex", 4, 0, 0, false)
    } else if i == 13 {
        make_consumable("c_trance", 4, 1, 0, false)
    } else if i == 14 {
        make_consumable("c_medium", 4, 1, 0, false)
    } else if i == 15 {
        make_consumable("c_cryptid", 4, 1, 0, false)
    } else if i == 16 {
        make_consumable("c_soul", 4, 0, 0, true)
    } else {
        make_consumable("c_black_hole", 4, 0, 0, true)
    }
}

/// The vouchers.
#[verifier::opaque]
pub open spec fn voucher(i: int) -> VoucherMeta {
    if i == 0 {
        VoucherMeta { key: "v_overstock_norm", cost: 10, requires: None }
    } else if i == 1 {
        VoucherMeta { key: "v_overstock_plus", cost: 10, requires: Some("v_overstock_norm") }
    } else if i == 2 {
        VoucherMeta { key: "v_clearance_sale", cost: 10, requires: None }
    } else if i == 3 {
        VoucherMeta { key: "v_liquidation", cost: 10, requires: Some("v_clearance_sale") }
    } else if i == 4 {
        VoucherMeta { key: "v_hone", cost: 10, requires: None }
    } else if i == 5 {
        VoucherMeta { key: "v_glow_up", cost: 10, requires: Some("v_hone") }
    } else if i == 6 {
        VoucherMeta { key: "v_reroll_surplus", cost: 10, requires: None }
    } else if i == 7 {
        VoucherMeta { key: "v_reroll_glut", cost: 10, requires: Some("v_reroll_surplus") }
    } else if i == 8 {
        VoucherMeta { key: "v_crystal_ball", cost: 10, requires: None }
    } else if i == 9 {
        VoucherMeta { key: "v_omen_globe", cost: 10, requires: Some("v_crystal_ball") }
    } else if i == 10 {
        VoucherMeta { key: "v_telescope", cost: 10, requires: None }
    } else if i == 11 {
        VoucherMeta { key: "v_observatory", cost: 10, requires: Some("v_telescope") }
    } else if i == 12 {
        VoucherMeta { key: "v_grabber", cost: 10, requires: None }
    } else if i == 13 {
        VoucherMeta { key: "v_nacho_tong", cost: 10, requires: Some("v_grabber") }
    } else if i == 14 {
        VoucherMeta { key: "v_wasteful", cost: 10, requires: None }
    } else if i == 15 {
        VoucherMeta { key: "v_recyclomancy", cost: 10, requires: Some("v_wasteful") }
    } else if i == 16 {
        VoucherMeta { key: "v_tarot_merchant", cost: 10, requires: None }
    } else if i == 17 {
        VoucherMeta { key: "v_tarot_tycoon", cost: 10, requires: Some("v_tarot_merchant") }
    } else if i == 18 {
        VoucherMeta { key: "v_planet_merchant", cost: 10, requires: None }
    } else if i == 19 {
        VoucherMeta { key: "v_planet_tycoon", cost: 10, requires: Some("v_planet_merchant") }
    } else if i == 20 {
        VoucherMeta { key: "v_seed_money", cost: 10, requires: None }
    } else if i == 21 {
        VoucherMeta { key: "v_money_tree", cost: 10, requires: Some("v_seed_money") }
    } else if i == 22 {
        VoucherMeta { key: "v_blank", cost: 10, requires: None }
    } else if i == 23 {
        VoucherMeta { key: "v_antimatter", cost: 10, requires: Some("v_blank") }
    } else if i == 24 {
        VoucherMeta { key: "v_magic_trick", cost: 10, requires: None }
    } else if i == 25 {
        VoucherMeta { key: "v_illusion", cost: 10, requires: Some("v_magic_trick") }
    } else if i == 26 {
        VoucherMeta { key: "v_hieroglyph", cost: 10, requires: None }
    } else if i == 27 {
        VoucherMeta { key: "v_petroglyph", cost: 10, requires: Some("v_hieroglyph") }
    } else if i == 28 {
        VoucherMeta { key: "v_directors_cut", cost: 10, requires: None }
    } else if i == 29 {
        VoucherMeta { key: "v_retcon", cost: 10, requires: Some("v_directors_cut") }
    } else if i == 30 {
        VoucherMeta { key: "v_paint_brush", cost: 10, requires: None }
    } else {
        VoucherMeta { key: "v_palette", cost: 10, requires: Some("v_paint_brush") }
    }
}

pub fn voucher_at(i: usize) -> (r: VoucherMeta)
    requires
        i < 32,
    ensures
        r == voucher(i as int),
{
    proof {
        reveal(voucher);
    }
    if i == 0 {
        VoucherMeta { key: "v_overstock_norm", cost: 10, requires: None }
    } else if i == 1 {
        VoucherMeta { key: "v_overstock_plus", cost: 10, requires: Some("v_overstock_norm") }
    } else if i == 2 {
        VoucherMeta { key: "v_clearance_sale", cost: 10, requires: None }
    } else if i == 3 {
        VoucherMeta { key: "v_liquidation", cost: 10, requires: Some("v_clearance_sale") }
    } else if i == 4 {
        VoucherMeta { key: "v_hone", cost: 10, requires: None }
    } else if i == 5 {
        VoucherMeta { key: "v_glow_up", cost: 10, requires: Some("v_hone") }
    } else if i == 6 {
        VoucherMeta { key: "v_reroll_surplus", cost: 10, requires: None }
    } else if i == 7 {
        VoucherMeta { key: "v_reroll_glut", cost: 10, requires: Some("v_reroll_surplus") }
    } else if i == 8 {
        VoucherMeta { key: "v_crystal_ball", cost: 10, requires: None }
    } else if i == 9 {
        VoucherMeta { key: "v_omen_globe", cost: 10, requires: Some("v_crystal_ball") }
    } else if i == 10 {
        VoucherMeta { key: "v_telescope", cost: 10, requires: None }
    } else if i == 11 {
        VoucherMeta { key: "v_observatory", cost: 10, requires: Some("v_telescope") }
    } else if i == 12 {
        VoucherMeta { key: "v_grabber", cost: 10, requires: None }
    } else if i == 13 {
        VoucherMeta { key: "v_nacho_tong", cost: 10, requires: Some("v_grabber") }
    } else if i == 14 {
        VoucherMeta { key: "v_wasteful", cost: 10, requires: None }
    } else if i == 15 {
        VoucherMeta { key: "v_recyclomancy", cost: 10, requires: Some("v_wasteful") }
    } else if i == 16 {
        VoucherMeta { key: "v_tarot_merchant", cost: 10, requires: None }
    } else if i == 17 {
        VoucherMeta { key: "v_tarot_tycoon", cost: 10, requires: Some("v_tarot_merchant") }
    } else if i == 18 {
        VoucherMeta { key: "v_planet_merchant", cost: 10, requires: None }
    } else if i == 19 {
        VoucherMeta { key: "v_planet_tycoon", cost: 10, requires: Some("v_planet_merchant") }
    } else if i == 20 {
        VoucherMeta { key: "v_seed_money", cost: 10, requires: None }
    } else if i == 21 {
        VoucherMeta { key: "v_money_tree", cost: 10, requires: Some("v_seed_money") }
    } else if i == 22 {
        VoucherMeta { key: "v_blank", cost: 10, requires: None }
    } else if i == 23 {
        VoucherMeta { key: "v_antimatter", cost: 10, requires: Some("v_blank") }
    } else if i == 24 {
        VoucherMeta { key: "v_magic_trick", cost: 10, requires: None }
    } else if i == 25 {
        VoucherMeta { key: "v_illusion", cost: 10, requires: Some("v_magic_trick") }
    } else if i == 26 {
        VoucherMeta { key: "v_hieroglyph", cost: 10, requires: None }
    } else if i == 27 {
        VoucherMeta { key: "v_petroglyph", cost: 10, requires: Some("v_hieroglyph") }
    } else if i == 28 {
        VoucherMeta { key: "v_directors_cut", cost: 10, requires: None }
    } else if i == 29 {
        VoucherMeta { key: "v_retcon", cost: 10, requires: Some("v_directors_cut") }
    } else if i == 30 {
        VoucherMeta { key: "v_paint_brush", cost: 10, requires: None }
    } else {
        VoucherMeta { key: "v_palette", cost: 10, requires: Some("v_paint_brush") }
    }
}

/// The tags.
#[verifier::opaque]
pub open spec fn tag(i: int) -> TagMeta {
    if i == 0 {
        TagMeta { key: "tag_uncommon", min_ante: None }
    } else if i == 1 {
        TagMeta { key: "tag_rare", min_ante: None }
    } else if i == 2 {
        TagMeta { key: "tag_negative", min_ante: Some(2) }
    } else if i == 3 {
        TagMeta { key: "tag_foil", min_ante: None }
    } else if i == 4 {
        TagMeta { key: "tag_holo", min_ante: None }
    } else if i == 5 {
        TagMeta { key: "tag_polychrome", min_ante: None }
    } else if i == 6 {
        TagMeta { key: "tag_investment", min_ante: None }
    } else if i == 7 {
        TagMeta { key: "tag_voucher", min_ante: None }
    } else if i == 8 {
        TagMeta { key: "tag_boss", min_ante: None }
    } else if i == 9 {
        TagMeta { key: "tag_standard", min_ante: Some(2) }
    } else if i == 10 {
        TagMeta { key: "tag_charm", min_ante: None }
    } else if i == 11 {
        TagMeta { key: "tag_meteor", min_ante: Some(2) }
    } else if i == 12 {
        TagMeta { key: "tag_buffoon", min_ante: Some(2) }
    } else if i == 13 {
        TagMeta { key: "tag_handy", min_ante: Some(2) }
    } else if i == 14 {
        TagMeta { key: "tag_garbage", min_ante: Some(2) }
    } else if i == 15 {
        TagMeta { key: "tag_ethereal", min_ante: Some(2) }
    } else if i == 16 {
        TagMeta { key: "tag_coupon", min_ante: None }
    } else if i == 17 {
        TagMeta { key: "tag_double", min_ante: None }
    } else if i == 18 {
        TagMeta { key: "tag_juggle", min_ante: None }
    } else if i == 19 {
        TagMeta { key: "tag_d_six", min_ante: None }
    } else if i == 20 {
        TagMeta { key: "tag_top_up", min_ante: Some(2) }
    } else if i == 21 {
        TagMeta { key: "tag_skip", min_ante: None }
    } else if i == 22 {
        TagMeta { key: "tag_orbital", min_ante: Some(2) }
    } else {
        TagMeta { key: "tag_economy", min_ante: None }
    }
}

pub fn tag_at(i: usize) -> (r: TagMeta)
    requires
        i < 24,
    ensures
        r == tag(i as int),
{
    proof {
        reveal(tag);
    }
    if i == 0 {
        TagMeta { key: "tag_uncommon", min_ante: None }
    } else if i == 1 {
        TagMeta { key: "tag_rare", min_ante: None }
    } else if i == 2 {
        TagMeta { key: "tag_negative", min_ante: Some(2) }
    } else if i == 3 {
        TagMeta { key: "tag_foil", min_ante: None }
    } else if i == 4 {
        TagMeta { key: "tag_holo", min_ante: None }
    } else if i == 5 {
        TagMeta { key: "tag_polychrome", min_ante: None }
    } else if i == 6 {
        TagMeta { key: "tag_investment", min_ante: None }
    } else if i == 7 {
        TagMeta { key: "tag_voucher", min_ante: None }
    } else if i == 8 {
        TagMeta { key: "tag_boss", min_ante: None }
    } else if i == 9 {
        TagMeta { key: "tag_standard", min_ante: Some(2) }
    } else if i == 10 {
        TagMeta { key: "tag_charm", min_ante: None }
    } else if i == 11 {
        TagMeta { key: "tag_meteor", min_ante: Some(2) }
    } else if i == 12 {
        TagMeta { key: "tag_buffoon", min_ante: Some(2) }
    } else if i == 13 {
        TagMeta { key: "tag_handy", min_ante: Some(2) }
    } else if i == 14 {
        TagMeta { key: "tag_garbage", min_ante: Some(2) }
    } else if i == 15 {
        TagMeta { key: "tag_ethereal", min_ante: Some(2) }
    } else if i == 16 {
        TagMeta { key: "tag_coupon", min_ante: None }
    } else if i == 17 {
        TagMeta { key: "tag_double", min_ante: None }
    } else if i == 18 {
        TagMeta { key: "tag_juggle", min_ante: None }
    } else if i == 19 {
        TagMeta { key: "tag_d_six", min_ante: None }
    } else if i == 20 {
        TagMeta { key: "tag_top_up", min_ante: Some(2) }
    } else if i == 21 {
        TagMeta { key: "tag_skip", min_ante: None }
    } else if i == 22 {
        TagMeta { key: "tag_orbital", min_ante: Some(2) }
    } else {
        TagMeta { key: "tag_economy", min_ante: None }
    }
}

pub open spec fn booster_row(
    key: Key,
    kind: PackKind,
    cost: i64,
    cards: usize,
    choose: u8,
    weight: nat,
) -> BoosterMeta {
    BoosterMeta { key, kind, cost, cards, choose, weight: Double::frac(weight, 100) }
}

fn make_booster(
    key: Key,
    kind: PackKind,
    cost: i64,
    cards: usize,
    choose: u8,
    weight: u64,
) -> (r: BoosterMeta)
    ensures
        r == booster_row(key, kind, cost, cards, choose, weight as nat),
{
    BoosterMeta { key, kind, cost, cards, choose, weight: Double::lit(weight, 100) }
}

/// The booster packs; the weights are in hundredths.
#[verifier::opaque]
pub open spec fn booster(i: int) -> BoosterMeta {
    if i == 0 {
        booster_row("p_arcana_normal_1", PackKind::Arcana, 4, 3, 1, 100)
    } else if i == 1 {
        booster_row("p_arcana_normal_2", PackKind::Arcana, 4, 3, 1, 100)
    } else if i == 2 {
        booster_row("p_arcana_normal_3", PackKind::Arcana, 4, 3, 1, 100)
    } else if i == 3 {
        booster_row("p_arcana_normal_4", PackKind::Arcana, 4, 3, 1, 100)
    } else if i == 4 {
        booster_row("p_arcana_jumbo_1", PackKind::Arcana, 6, 5, 1, 100)
    } else if i == 5 {
        booster_row("p_arcana_jumbo_2", PackKind::Arcana, 6, 5, 1, 100)
    } else if i == 6 {
        booster_row("p_arcana_mega_1", PackKind::Arcana, 8, 5, 2, 25)
    } else if i == 7 {
        booster_row("p_arcana_mega_2", PackKind::Arcana, 8, 5, 2, 25)
    } else if i == 8 {
        booster_row("p_celestial_normal_1", PackKind::Celestial, 4, 3, 1, 100)
    } else if i == 9 {
        booster_row("p_celestial_normal_2", PackKind::Celestial, 4, 3, 1, 100)
    } else if i == 10 {
        booster_row("p_celestial_normal_3", PackKind::Celestial, 4, 3, 1, 100)
    } else if i == 11 {
        booster_row("p_celestial_normal_4", PackKind::Celestial, 4, 3, 1, 100)
    } else if i == 12 {
        booster_row("p_celestial_jumbo_1", PackKind::Celestial, 6, 5, 1, 100)
    } else if i == 13 {
        booster_row("p_celestial_jumbo_2", PackKind::Celestial, 6, 5, 1, 100)
    } else if i == 14 {
        booster_row("p_celestial_mega_1", PackKind::Celestial, 8, 5, 2, 25)
    } else if i == 15 {
        booster_row("p_celestial_mega_2", PackKind::Celestial, 8, 5, 2, 25)
    } else if i == 16 {
        booster_row("p_standard_normal_1", PackKind::Standard, 4, 3, 1, 100)
    } else if i == 17 {
        booster_row("p_standard_normal_2", PackKind::Standard, 4, 3, 1, 100)
    } else if i == 18 {
        booster_row("p_standard_normal_3", PackKind::Standard, 4, 3, 1, 100)
    } else if i == 19 {
        booster_row("p_standard_normal_4", PackKind::Standard, 4, 3, 1, 100)
    } else if i == 20 {
        booster_row("p_standard_jumbo_1", PackKind::Standard, 6, 5, 1, 100)
    } else if i == 21 {
        booster_row("p_standard_jumbo_2", PackKind::Standard, 6, 5, 1, 100)
    } else if i == 22 {
        booster_row("p_standard_mega_1", PackKind::Standard, 8, 5, 2, 25)
    } else if i == 23 {
        booster_row("p_standard_mega_2", PackKind::Standard, 8, 5, 2, 25)
    } else if i == 24 {
        booster_row("p_buffoon_normal_1", PackKind::Buffoon, 4, 2, 1, 60)
    } else if i == 25 {
        booster_row("p_buffoon_normal_2", PackKind::Buffoon, 4, 2, 1, 60)
    } else if i == 26 {
        booster_row("p_buffoon_jumbo_1", PackKind::Buffoon, 6, 4, 1, 60)
    } else if i == 27 {
        booster_row("p_buffoon_mega_1", PackKind::Buffoon, 8, 4, 2, 15)
    } else if i == 28 {
        booster_row("p_spectral_normal_1", PackKind::Spectral, 4, 2, 1, 30)
    } else if i == 29 {
        booster_row("p_spectral_normal_2", PackKind::Spectral, 4, 2, 1, 30)
    } else if i == 30 {
        booster_row("p_spectral_jumbo_1", PackKind::Spectral, 6, 4, 1, 30)
    } else {
        booster_row("p_spectral_mega_1", PackKind::Spectral, 8, 4, 2, 7)
    }
}

pub fn booster_at(i: usize) -> (r: BoosterMeta)
    requires
        i < 32,
    ensures
        r == booster(i as int),
{
    proof {
        reveal(booster);
    }
    if i == 0 {
        make_booster("p_arcana_normal_1", PackKind::Arcana, 4, 3, 1, 100)
    } else if i == 1 {
        make_booster("p_arcana_normal_2", PackKind::Arcana, 4, 3, 1, 100)
    } else if i == 2 {
        make_booster("p_arcana_normal_3", PackKind::Arcana, 4, 3, 1, 100)
    } else if i == 3 {
        make_booster("p_arcana_normal_4", PackKind::Arcana, 4, 3, 1, 100)
    } else if i == 4 {
        make_booster("p_arcana_jumbo_1", PackKind::Arcana, 6, 5, 1, 100)
    } else if i == 5 {
        make_booster("p_arcana_jumbo_2", PackKind::Arcana, 6, 5, 1, 100)
    } else if i == 6 {
        make_booster("p_arcana_mega_1", PackKind::Arcana, 8, 5, 2, 25)
    } else if i == 7 {
        make_booster("p_arcana_mega_2", PackKind::Arcana, 8, 5, 2, 25)
    } else if i == 8 {
        make_booster("p_celestial_normal_1", PackKind::Celestial, 4, 3, 1, 100)
    } else if i == 9 {
        make_booster("p_celestial_normal_2", PackKind::Celestial, 4, 3, 1, 100)
    } else if i == 10 {
        make_booster("p_celestial_normal_3", PackKind::Celestial, 4, 3, 1, 100)
    } else if i == 11 {
        make_booster("p_celestial_normal_4", PackKind::Celestial, 4, 3, 1, 100)
    } else if i == 12 {
        make_booster("p_celestial_jumbo_1", PackKind::Celestial, 6, 5, 1, 100)
    } else if i == 13 {
        make_booster("p_celestial_jumbo_2", PackKind::Celestial, 6, 5, 1, 100)
    } else if i == 14 {
        make_booster("p_celestial_mega_1", PackKind::Celestial, 8, 5, 2, 25)
    } else if i == 15 {
        make_booster("p_celestial_mega_2", PackKind::Celestial, 8, 5, 2, 25)
    } else if i == 16 {
        make_booster("p_standard_normal_1", PackKind::Standard, 4, 3, 1, 100)
    } else if i == 17 {
        make_booster("p_standard_normal_2", PackKind::Standard, 4, 3, 1, 100)
    } else if i == 18 {
        make_booster("p_standard_normal_3", PackKind::Standard, 4, 3, 1, 100)
    } else if i == 19 {
        make_booster("p_standard_normal_4", PackKind::Standard, 4, 3, 1, 100)
    } else if i == 20 {
        make_booster("p_standard_jumbo_1", PackKind::Standard, 6, 5, 1, 100)
    } else if i == 21 {
        make_booster("p_standard_jumbo_2", PackKind::Standard, 6, 5, 1, 100)
    } else if i == 22 {
        make_booster("p_standard_mega_1", PackKind::Standard, 8, 5, 2, 25)
    } else if i == 23 {
        make_booster("p_standard_mega_2", PackKind::Standard, 8, 5, 2, 25)
    } else if i == 24 {
        make_booster("p_buffoon_normal_1", PackKind::Buffoon, 4, 2, 1, 60)
    } else if i == 25 {
        make_booster("p_buffoon_normal_2", PackKind::Buffoon, 4, 2, 1, 60)
    } else if i == 26 {
        make_booster("p_buffoon_jumbo_1", PackKind::Buffoon, 6, 4, 1, 60)
    } else if i == 27 {
        make_booster("p_buffoon_mega_1", PackKind::Buffoon, 8, 4, 2, 15)
    } else if i == 28 {
        make_booster("p_spectral_normal_1", PackKind::Spectral, 4, 2, 1, 30)
    } else if i == 29 {
        make_booster("p_spectral_normal_2", PackKind::Spectral, 4, 2, 1, 30)
    } else if i == 30 {
        make_booster("p_spectral_jumbo_1", PackKind::Spectral, 6, 4, 1, 30)
    } else {
        make_booster("p_spectral_mega_1", PackKind::Spectral, 8, 4, 2, 7)
    }
}

/// The enhancements.
#[verifier::opaque]
pub open spec fn enhanced(i: int) -> Key {
    if i == 0 {
        "m_bonus"
    } else if i == 1 {
        "m_mult"
    } else if i == 2 {
        "m_wild"
    } else if i == 3 {
        "m_glass"
    } else if i == 4 {
        "m_steel"
    } else if i == 5 {
        "m_stone"
    } else if i == 6 {
        "m_gold"
    } else {
        "m_lucky"
    }
}

pub fn enhanced_at(i: usize) -> (r: Key)
    requires
        i < 8,
    ensures
        r == enhanced(i as int),
{
    proof {
        reveal(enhanced);
    }
    if i == 0 {
        "m_bonus"
    } else if i == 1 {
        "m_mult"
    } else if i == 2 {
        "m_wild"
    } else if i == 3 {
        "m_glass"
    } else if i == 4 {
        "m_steel"
    } else if i == 5 {
        "m_stone"
    } else if i == 6 {
        "m_gold"
    } else {
        "m_lucky"
    }
}

} // verus!
