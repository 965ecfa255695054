//! Looking things up in the registry, prices, and the pools that shops, packs,
//! tags and jokers draw from.
use crate::cards::{Card, Edition, Enhancement, HandType, Rank, Suit};
use crate::config;
use crate::config::front_at;
use crate::double::Double;
use crate::keymap::KeyMap;
use crate::registry;
use crate::rng::{RngState, Streams};
use crate::scoring::HandsTable;
use crate::text;
use crate::text::{join2, same_text, with_number};
use vstd::prelude::*;

pub use crate::registry::{
    BoosterMeta, ConsumableMeta, JokerId, JokerMeta, Key, PackKind, TagMeta, VoucherMeta,
};

verus! {

/// The kinds of consumables.
#[derive(Debug, Clone, Copy, PartialEq, Eq, Hash, Structural)]
pub enum ConsumableSet {
    Tarot,
    Planet,
    Spectral,
}

impl ConsumableSet {
    pub open spec fn text(self) -> &'static str {
        match self {
            ConsumableSet::Tarot => "Tarot",
            ConsumableSet::Planet => "Planet",
            ConsumableSet::Spectral => "Spectral",
        }
    }

    /// The name of the kind in stream keys.
    pub fn type_str(self) -> (r: &'static str)
        ensures
            r == self.text(),
    {
        match self {
            ConsumableSet::Tarot => "Tarot",
            ConsumableSet::Planet => "Planet",
            ConsumableSet::Spectral => "Spectral",
        }
    }
}

/// The first joker with a key from place `i` on.
pub open spec fn joker_from(key: Seq<char>, i: nat) -> Option<JokerMeta>
    decreases 150 - i,
{
    if i >= 150 {
        None
    } else if registry::joker(i as int).key@ == key {
        Some(registry::joker(i as int))
    } else {
        joker_from(key, i + 1)
    }
}

/// The joker with a key.
pub open spec fn joker_named(key: Seq<char>) -> Option<JokerMeta> {
    joker_from(key, 0)
}

pub fn joker_by_key(key: &str) -> (r: Option<JokerMeta>)
    ensures
        r == joker_named(key@),
{
    let mut i: usize = 0;
    while i < 150
        invariant
            i <= 150,
            joker_named(key@) == joker_from(key@, i as nat),
        decreases 150 - i,
    {
        let m = registry::joker_at(i);
        if same_text(m.key, key) {
            return Some(m);
        }
        i = i + 1;
    }
    None
}

/// The first voucher with a key from place `i` on.
pub open spec fn voucher_from(key: Seq<char>, i: nat) -> Option<VoucherMeta>
    decreases 32 - i,
{
    if i >= 32 {
        None
    } else if registry::voucher(i as int).key@ == key {
        Some(registry::voucher(i as int))
    } else {
        voucher_from(key, i + 1)
    }
}

/// The voucher with a key.
pub open spec fn voucher_named(key: Seq<char>) -> Option<VoucherMeta> {
    voucher_from(key, 0)
}

pub fn voucher_by_key(key: &str) -> (r: Option<VoucherMeta>)
    ensures
        r == voucher_named(key@),
{
    let mut i: usize = 0;
    while i < 32
        invariant
            i <= 32,
            voucher_named(key@) == voucher_from(key@, i as nat),
        decreases 32 - i,
    {
        let m = registry::voucher_at(i);
        if same_text(m.key, key) {
            return Some(m);
        }
        i = i + 1;
    }
    None
}

/// The first tag with a key from place `i` on.
pub open spec fn tag_from(key: Seq<char>, i: nat) -> Option<TagMeta>
    decreases 24 - i,
{
    if i >= 24 {
        None
    } else if registry::tag(i as int).key@ == key {
        Some(registry::tag(i as int))
    } else {
        tag_from(key, i + 1)
    }
}

/// The tag with a key.
pub open spec fn tag_named(key: Seq<char>) -> Option<TagMeta> {
    tag_from(key, 0)
}

pub fn tag_by_key(key: &str) -> (r: Option<TagMeta>)
    ensures
        r == tag_named(key@),
{
    let mut i: usize = 0;
    while i < 24
        invariant
            i <= 24,
            tag_named(key@) == tag_from(key@, i as nat),
        decreases 24 - i,
    {
        let m = registry::tag_at(i);
        if same_text(m.key, key) {
            return Some(m);
        }
        i = i + 1;
    }
    None
}

/// The first booster pack with a key from place `i` on.
pub open spec fn booster_from(key: Seq<char>, i: nat) -> Option<BoosterMeta>
    decreases 32 - i,
{
    if i >= 32 {
        None
    } else if registry::booster(i as int).key@ == key {
        Some(registry::booster(i as int))
    } else {
        booster_from(key, i + 1)
    }
}

/// The booster pack with a key.
pub open spec fn booster_named(key: Seq<char>) -> Option<BoosterMeta> {
    booster_from(key, 0)
}

pub fn booster_by_key(key: &str) -> (r: Option<BoosterMeta>)
    ensures
        r == booster_named(key@),
{
    let mut i: usize = 0;
    while i < 32
        invariant
            i <= 32,
            booster_named(key@) == booster_from(key@, i as nat),
        decreases 32 - i,
    {
        let m = registry::booster_at(i);
        if same_text(m.key, key) {
            return Some(m);
        }
        i = i + 1;
    }
    None
}

/// The first Tarot card with a key from place `i` on.
pub open spec fn tarot_from(key: Seq<char>, i: nat) -> Option<ConsumableMeta>
    decreases 22 - i,
{
    if i >= 22 {
        None
    } else if registry::tarot(i as int).key@ == key {
        Some(registry::tarot(i as int))
    } else {
        tarot_from(key, i + 1)
    }
}

/// The Tarot card with a key.
pub open spec fn tarot_named(key: Seq<char>) -> Option<ConsumableMeta> {
    tarot_from(key, 0)
}

fn find_tarot(key: &str) -> (r: Option<ConsumableMeta>)
    ensures
        r == tarot_named(key@),
{
    let mut i: usize = 0;
    while i < 22
        invariant
            i <= 22,
            tarot_named(key@) == tarot_from(key@, i as nat),
        decreases 22 - i,
    {
        let m = registry::tarot_at(i);
        if same_text(m.key, key) {
            return Some(m);
        }
        i = i + 1;
    }
    None
}

/// The first Planet card with a key from place `i` on.
pub open spec fn planet_from(key: Seq<char>, i: nat) -> Option<ConsumableMeta>
    decreases 12 - i,
{
    if i >= 12 {
        None
    } else if registry::planet(i as int).key@ == key {
        Some(registry::planet(i as int))
    } else {
        planet_from(key, i + 1)
    }
}

/// The Planet card with a key.
pub open spec fn planet_named(key: Seq<char>) -> Option<ConsumableMeta> {
    planet_from(key, 0)
}

fn find_planet(key: &str) -> (r: Option<ConsumableMeta>)
    ensures
        r == planet_named(key@),
{
    let mut i: usize = 0;
    while i < 12
        invariant
            i <= 12,
            planet_named(key@) == planet_from(key@, i as nat),
        decreases 12 - i,
    {
        let m = registry::planet_at(i);
        if same_text(m.key, key) {
            return Some(m);
        }
        i = i + 1;
    }
    None
}

/// The first Spectral card with a key from place `i` on.
pub open spec fn spectral_from(key: Seq<char>, i: nat) -> Option<ConsumableMeta>
    decreases 18 - i,
{
    if i >= 18 {
        None
    } else if registry::spectral(i as int).key@ == key {
        Some(registry::spectral(i as int))
    } else {
        spectral_from(key, i + 1)
    }
}

/// The Spectral card with a key.
pub open spec fn spectral_named(key: Seq<char>) -> Option<ConsumableMeta> {
    spectral_from(key, 0)
}

fn find_spectral(key: &str) -> (r: Option<ConsumableMeta>)
    ensures
        r == spectral_named(key@),
{
    let mut i: usize = 0;
    while i < 18
        invariant
            i <= 18,
            spectral_named(key@) == spectral_from(key@, i as nat),
        decreases 18 - i,
    {
        let m = registry::spectral_at(i);
        if same_text(m.key, key) {
            return Some(m);
        }
        i = i + 1;
    }
    None
}

/// The consumable with a key, and its kind.
pub open spec fn consumable_named(key: Seq<char>) -> Option<(ConsumableMeta, ConsumableSet)> {
    match tarot_named(key) {
        Some(m) => Some((m, ConsumableSet::Tarot)),
        None => match planet_named(key) {
            Some(m) => Some((m, ConsumableSet::Planet)),
            None => match spectral_named(key) {
                Some(m) => Some((m, ConsumableSet::Spectral)),
                None => None,
            },
        },
    }
}

pub fn consumable_by_key(key: &str) -> (r: Option<(ConsumableMeta, ConsumableSet)>)
    ensures
        r == consumable_named(key@),
{
    if let Some(m) = find_tarot(key) {
        return Some((m, ConsumableSet::Tarot));
    }
    if let Some(m) = find_planet(key) {
        return Some((m, ConsumableSet::Planet));
    }
    if let Some(m) = find_spectral(key) {
        return Some((m, ConsumableSet::Spectral));
    }
    None
}

/// The price in the registry; 1 for what has none.
pub open spec fn base_cost_of(key: Seq<char>) -> i64 {
    match joker_named(key) {
        Some(m) => m.cost,
        None => match consumable_named(key) {
            Some(m) => m.0.cost,
            None => match voucher_named(key) {
                Some(m) => m.cost,
                None => match booster_named(key) {
                    Some(m) => m.cost,
                    None => 1,
                },
            },
        },
    }
}

pub fn center_base_cost(key: &str) -> (r: i64)
    ensures
        r == base_cost_of(key@),
{
    if let Some(m) = joker_by_key(key) {
        return m.cost;
    }
    if let Some(m) = consumable_by_key(key) {
        return m.0.cost;
    }
    if let Some(m) = voucher_by_key(key) {
        return m.cost;
    }
    if let Some(m) = booster_by_key(key) {
        return m.cost;
    }
    1
}

/// What an edition adds to a price.
pub open spec fn edition_cost(edition: Edition) -> i64 {
    match edition {
        Edition::Holo => 3,
        Edition::Foil => 2,
        Edition::Polychrome => 5,
        Edition::Negative => 5,
        Edition::Plain => 0,
    }
}

pub fn edition_extra_cost(edition: Edition) -> (r: i64)
    ensures
        r == edition_cost(edition),
{
    match edition {
        Edition::Holo => 3,
        Edition::Foil => 2,
        Edition::Polychrome => 5,
        Edition::Negative => 5,
        Edition::Plain => 0,
    }
}

/// The price in a shop: base and edition with the discount, rounded, at least
/// 1; nothing for what a coupon pays.
#[verifier::opaque]
pub open spec fn price(base: i64, edition: Edition, discount: i64, couponed: bool) -> i64 {
    let full = Double::of(base.wrapping_add(edition_cost(edition)) as int).plus(
        Double::frac(5, 10),
    );
    let c = full.times(Double::of(100i64.wrapping_sub(discount) as int)).over(
        Double::of(100),
    ).floored().truncated();
    if couponed {
        0
    } else if c < 1 {
        1
    } else {
        c
    }
}

pub fn item_cost(base_cost: i64, edition: Edition, discount_percent: i64, couponed: bool) -> (r: i64)
    ensures
        r == price(base_cost, edition, discount_percent, couponed),
{
    proof {
        reveal(price);
    }
    let sum: i64 = base_cost.wrapping_add(edition_extra_cost(edition));
    let rest: i64 = 100i64.wrapping_sub(discount_percent);
    let cost: i64 = Double::from_i64(sum).add(Double::lit(5, 10)).mul(Double::from_i64(rest)).div(
        Double::from_i64(100),
    ).floor().to_i64();
    if couponed {
        0
    } else if cost < 1 {
        1
    } else {
        cost
    }
}

/// What an item sells for: half its price, at least 1, and what was added to
/// it.
pub open spec fn resale(base: i64, edition: Edition, discount: i64, extra: i64) -> i64 {
    let half = price(base, edition, discount, false) as int / 2;
    (if half < 1 {
        1i64
    } else {
        half as i64
    }).wrapping_add(extra)
}

pub fn sell_cost(base_cost: i64, edition: Edition, discount_percent: i64, extra_value: i64) -> (r: i64)
    ensures
        r == resale(base_cost, edition, discount_percent, extra_value),
{
    let cost: i64 = item_cost(base_cost, edition, discount_percent, false);
    proof {
        law_prices_are_positive(base_cost, edition, discount_percent);
    }
    let half: i64 = cost / 2;
    (if half < 1 {
        1i64
    } else {
        half
    }).wrapping_add(extra_value)
}

/// Nothing costs less than 1 unless a coupon pays for it, and nothing sells
/// for less than 1 before what was added to it.
pub proof fn law_prices_are_positive(base: i64, edition: Edition, discount: i64)
    ensures
        price(base, edition, discount, false) >= 1,
        price(base, edition, discount, true) == 0,
        resale(base, edition, discount, 0) >= 1,
{
    reveal(price);
}

/// The poker hand of a Planet card.
pub open spec fn planet_hand(key: Seq<char>) -> Option<HandType> {
    if key == "c_mercury"@ {
        Some(HandType::Pair)
    } else if key == "c_venus"@ {
        Some(HandType::ThreeOfAKind)
    } else if key == "c_earth"@ {
        Some(HandType::FullHouse)
    } else if key == "c_mars"@ {
        Some(HandType::FourOfAKind)
    } else if key == "c_jupiter"@ {
        Some(HandType::Flush)
    } else if key == "c_saturn"@ {
        Some(HandType::Straight)
    } else if key == "c_uranus"@ {
        Some(HandType::TwoPair)
    } else if key == "c_neptune"@ {
        Some(HandType::StraightFlush)
    } else if key == "c_pluto"@ {
        Some(HandType::HighCard)
    } else if key == "c_planet_x"@ {
        Some(HandType::FiveOfAKind)
    } else if key == "c_ceres"@ {
        Some(HandType::FlushHouse)
    } else if key == "c_eris"@ {
        Some(HandType::FlushFive)
    } else {
        None
    }
}

pub fn hand_for_planet(key: &str) -> (r: Option<HandType>)
    ensures
        r == planet_hand(key@),
{
    if same_text(key, "c_mercury") {
        Some(HandType::Pair)
    } else if same_text(key, "c_venus") {
        Some(HandType::ThreeOfAKind)
    } else if same_text(key, "c_earth") {
        Some(HandType::FullHouse)
    } else if same_text(key, "c_mars") {
        Some(HandType::FourOfAKind)
    } else if same_text(key, "c_jupiter") {
        Some(HandType::Flush)
    } else if same_text(key, "c_saturn") {
        Some(HandType::Straight)
    } else if same_text(key, "c_uranus") {
        Some(HandType::TwoPair)
    } else if same_text(key, "c_neptune") {
        Some(HandType::StraightFlush)
    } else if same_text(key, "c_pluto") {
        Some(HandType::HighCard)
    } else if same_text(key, "c_planet_x") {
        Some(HandType::FiveOfAKind)
    } else if same_text(key, "c_ceres") {
        Some(HandType::FlushHouse)
    } else if same_text(key, "c_eris") {
        Some(HandType::FlushFive)
    } else {
        None
    }
}

/// Planet cards of secret hands, which are offered once the hand was played.
pub open spec fn is_secret_planet(key: Seq<char>) -> bool {
    key == "c_planet_x"@ || key == "c_ceres"@ || key == "c_eris"@
}

pub fn planet_softlocked(key: &str) -> (r: bool)
    ensures
        r == is_secret_planet(key@),
{
    same_text(key, "c_planet_x") || same_text(key, "c_ceres") || same_text(key, "c_eris")
}

/// The enhancement with a key.
pub open spec fn enhancement_named(key: Seq<char>) -> Enhancement {
    if key == "m_bonus"@ {
        Enhancement::Bonus
    } else if key == "m_mult"@ {
        Enhancement::Mult
    } else if key == "m_wild"@ {
        Enhancement::Wild
    } else if key == "m_glass"@ {
        Enhancement::Glass
    } else if key == "m_steel"@ {
        Enhancement::Steel
    } else if key == "m_stone"@ {
        Enhancement::Stone
    } else if key == "m_gold"@ {
        Enhancement::Gold
    } else if key == "m_lucky"@ {
        Enhancement::Lucky
    } else {
        Enhancement::Plain
    }
}

pub fn enhancement_from_key(key: &str) -> (r: Enhancement)
    ensures
        r == enhancement_named(key@),
{
    if same_text(key, "m_bonus") {
        Enhancement::Bonus
    } else if same_text(key, "m_mult") {
        Enhancement::Mult
    } else if same_text(key, "m_wild") {
        Enhancement::Wild
    } else if same_text(key, "m_glass") {
        Enhancement::Glass
    } else if same_text(key, "m_steel") {
        Enhancement::Steel
    } else if same_text(key, "m_stone") {
        Enhancement::Stone
    } else if same_text(key, "m_gold") {
        Enhancement::Gold
    } else if same_text(key, "m_lucky") {
        Enhancement::Lucky
    } else {
        Enhancement::Plain
    }
}

/// The hands from the strongest to the weakest.
pub const HANDLIST: [HandType; 12] = [
    HandType::FlushFive,
    HandType::FlushHouse,
    HandType::FiveOfAKind,
    HandType::StraightFlush,
    HandType::FourOfAKind,
    HandType::FullHouse,
    HandType::Flush,
    HandType::Straight,
    HandType::ThreeOfAKind,
    HandType::TwoPair,
    HandType::Pair,
    HandType::HighCard,
];

/// The suit and rank at a place of the 52 in key order.
pub fn card_front_from_index(idx: usize) -> (r: (Suit, Rank))
    requires
        idx < 52,
    ensures
        r == config::front(idx as int),
{
    front_at(idx)
}

/// A drawn place in a list.
pub fn element_index(rng: &mut RngState, key: &str, len: usize) -> (r: usize)
    requires
        len > 0,
    ensures
        r == old(rng)@.place(key@, len as nat),
        r < len,
        final(rng)@ == old(rng)@.after(key@),
{
    rng.random_place(key, len)
}

// ---- drawing from a pool -------------------------------------------------

/// The entry of a pool that cannot be drawn.
pub open spec fn unavailable() -> Key {
    "UNAVAILABLE"
}

pub open spec fn is_open(k: Key) -> bool {
    k@ != unavailable()@
}

/// The first entry from place `i` on that can be drawn, or the first of all.
pub open spec fn first_open(pool: Seq<Key>, i: nat) -> Key
    decreases pool.len() - i,
{
    if i >= pool.len() {
        pool[0]
    } else if is_open(pool[i as int]) {
        pool[i as int]
    } else {
        first_open(pool, i + 1)
    }
}

/// The key of a repeated draw.
pub open spec fn resample_key(key: Seq<char>, it: int) -> Seq<char> {
    key + "_resample"@ + text::decimal(it)
}

/// Draw again, each time from a key of its own, until an entry comes that can
/// be drawn. After the last number that a key can carry the first such entry
/// is taken.
pub open spec fn drawn_again(s: Streams, pool: Seq<Key>, key: Seq<char>, it: int) -> (Key, Streams)
    decreases i32::MAX + 1 - it,
{
    if it > i32::MAX {
        (first_open(pool, 0), s)
    } else {
        let k = resample_key(key, it);
        let c = pool[s.place(k, pool.len())];
        if is_open(c) {
            (c, s.after(k))
        } else {
            drawn_again(s.after(k), pool, key, it + 1)
        }
    }
}

/// The entry drawn from a pool, and the streams after.
#[verifier::opaque]
pub open spec fn drawn(s: Streams, pool: Seq<Key>, key: Seq<char>) -> (Key, Streams) {
    let c = pool[s.place(key, pool.len())];
    if is_open(c) {
        (c, s.after(key))
    } else {
        drawn_again(s.after(key), pool, key, 2)
    }
}

fn first_open_of(pool: &Vec<&'static str>) -> (r: &'static str)
    requires
        pool.len() > 0,
    ensures
        r == first_open(pool@, 0),
{
    let mut i: usize = 0;
    while i < pool.len()
        invariant
            i <= pool.len(),
            first_open(pool@, 0) == first_open(pool@, i as nat),
        decreases pool.len() - i,
    {
        if !same_text(pool[i], "UNAVAILABLE") {
            return pool[i];
        }
        i = i + 1;
    }
    pool[0]
}

/// Draw from a pool.
pub fn pool_draw(rng: &mut RngState, pool: &Vec<&'static str>, pool_key: &str) -> (r: &'static str)
    requires
        pool.len() > 0,
    ensures
        r == drawn(old(rng)@, pool@, pool_key@).0,
        final(rng)@ == drawn(old(rng)@, pool@, pool_key@).1,
{
    proof {
        reveal(drawn);
    }
    let ghost goal = drawn(rng@, pool@, pool_key@);
    let k: usize = rng.random_place(pool_key, pool.len());
    let mut center = pool[k];
    let mut it: i32 = 1;
    while same_text(center, "UNAVAILABLE")
        invariant
            pool.len() > 0,
            1 <= it,
            goal == drawn(old(rng)@, pool@, pool_key@),
            is_open(center) ==> goal == (center, rng@),
            !is_open(center) ==> goal == drawn_again(rng@, pool@, pool_key@, it + 1),
        decreases (if is_open(center) { 0int } else { i32::MAX + 1 - it }),
    {
        if it == i32::MAX {
            return first_open_of(pool);
        }
        it = it + 1;
        let key = with_number(join2(pool_key, "_resample").as_str(), it as i64);
        let k: usize = rng.random_place(key.as_str(), pool.len());
        center = pool[k];
    }
    center
}

proof fn lemma_first_open(pool: Seq<Key>, i: nat, j: int)
    requires
        i <= j < pool.len(),
        is_open(pool[j]),
    ensures
        is_open(first_open(pool, i)),
        pool.contains(first_open(pool, i)),
    decreases pool.len() - i,
{
    if !is_open(pool[i as int]) {
        lemma_first_open(pool, i + 1, j);
    }
}

proof fn lemma_drawn_again_is_open(s: Streams, pool: Seq<Key>, key: Seq<char>, it: int, j: int)
    requires
        0 <= j < pool.len(),
        is_open(pool[j]),
    ensures
        is_open(drawn_again(s, pool, key, it).0),
        pool.contains(drawn_again(s, pool, key, it).0),
    decreases i32::MAX + 1 - it,
{
    if it > i32::MAX {
        lemma_first_open(pool, 0, j);
    } else {
        let k = resample_key(key, it);
        if !is_open(pool[s.place(k, pool.len())]) {
            lemma_drawn_again_is_open(s.after(k), pool, key, it + 1, j);
        }
    }
}

/// From a pool with an entry that can be drawn, such an entry is drawn.
pub proof fn law_drawn_entries_are_open(s: Streams, pool: Seq<Key>, key: Seq<char>, j: int)
    requires
        0 <= j < pool.len(),
        is_open(pool[j]),
    ensures
        is_open(drawn(s, pool, key).0),
        pool.contains(drawn(s, pool, key).0),
{
    reveal(drawn);
    if !is_open(pool[s.place(key, pool.len())]) {
        lemma_drawn_again_is_open(s.after(key), pool, key, 2, j);
    }
}

// ---- the pools -----------------------------------------------------------

/// What of a run decides which entries a pool offers.
pub struct PoolState {
    pub ante: i64,
    /// How many of each thing are about.
    pub used: Map<Seq<char>, u32>,
    pub vouchers: Map<Seq<char>, ()>,
    /// The vouchers on display.
    pub displayed: Seq<Key>,
    pub hands: Option<HandsTable>,
    /// The playing cards that are left.
    pub cards: Seq<Card>,
    pub flags: Map<Seq<char>, ()>,
    /// Things may come twice.
    pub showman: bool,
}

impl PoolState {
    /// Held back because one is about already.
    pub open spec fn is_used(self, key: Seq<char>) -> bool {
        !self.showman && self.used.dom().contains(key) && self.used[key] > 0
    }

    pub open spec fn has_enhancement(self, e: Enhancement) -> bool {
        exists|i: int| 0 <= i < self.cards.len() && (#[trigger] self.cards[i]).enhancement == e
    }

    pub open spec fn has_flag(self, flag: Key) -> bool {
        self.flags.dom().contains(flag@)
    }

    pub open spec fn offers_joker(self, m: JokerMeta) -> bool {
        &&& !self.is_used(m.key@)
        &&& m.enhancement_gate is Some ==> self.has_enhancement(
            enhancement_named(m.enhancement_gate->0@),
        )
        &&& m.no_pool_flag is Some ==> !self.has_flag(m.no_pool_flag->0)
        &&& m.yes_pool_flag is Some ==> self.has_flag(m.yes_pool_flag->0)
    }

    pub open spec fn offers_consumable(self, set: ConsumableSet, m: ConsumableMeta) -> bool {
        &&& !self.is_used(m.key@)
        &&& set == ConsumableSet::Spectral ==> !m.hidden
        &&& set == ConsumableSet::Planet && is_secret_planet(m.key@) ==> match (
            self.hands,
            planet_hand(m.key@),
        ) {
            (Some(h), Some(ht)) => h.row(ht).played > 0,
            _ => false,
        }
    }

    pub open spec fn offers_voucher(self, m: VoucherMeta) -> bool {
        &&& !self.is_used(m.key@)
        &&& !self.vouchers.dom().contains(m.key@)
        &&& m.requires is Some ==> self.vouchers.dom().contains(m.requires->0@)
        &&& !text::has_key(self.displayed, m.key@)
    }

    pub open spec fn offers_tag(self, m: TagMeta) -> bool {
        m.min_ante is Some ==> m.min_ante->0 <= self.ante
    }
}

/// What `get_current_pool` reads of a run.
pub struct PoolArgs<'a> {
    pub ante: i64,
    pub used_keys: &'a KeyMap<u32>,
    pub used_vouchers: &'a KeyMap<()>,
    pub shop_vouchers: &'a Vec<&'static str>,
    pub hands: Option<&'a HandsTable>,
    pub deck: &'a Vec<Card>,
    pub hand: &'a Vec<Card>,
    pub discard: &'a Vec<Card>,
    pub pool_flags: &'a KeyMap<()>,
    pub showman: bool,
}

impl<'a> PoolArgs<'a> {
    pub open spec fn state(self) -> PoolState {
        PoolState {
            ante: self.ante,
            used: self.used_keys@,
            vouchers: self.used_vouchers@,
            displayed: self.shop_vouchers@,
            hands: match self.hands {
                Some(h) => Some(*h),
                None => None,
            },
            cards: self.deck@ + self.hand@ + self.discard@,
            flags: self.pool_flags@,
            showman: self.showman,
        }
    }

    fn used(&self, key: &str) -> (r: bool)
        ensures
            r == self.state().is_used(key@),
    {
        if self.showman {
            return false;
        }
        match self.used_keys.get(key) {
            Some(n) => n > 0,
            None => false,
        }
    }

    fn has_enhancement(&self, gate: &str) -> (r: bool)
        ensures
            r == self.state().has_enhancement(enhancement_named(gate@)),
    {
        let e = enhancement_from_key(gate);
        let ghost all = self.state().cards;
        let a = any_enhanced(self.deck, e);
        let b = any_enhanced(self.hand, e);
        let c = any_enhanced(self.discard, e);
        proof {
            let n = self.deck@.len();
            let m = self.hand@.len();
            if a {
                let i = choose|i: int| 0 <= i < n && (#[trigger] self.deck@[i]).enhancement == e;
                assert(all[i] == self.deck@[i]);
            }
            if b {
                let i = choose|i: int| 0 <= i < m && (#[trigger] self.hand@[i]).enhancement == e;
                assert(all[n + i] == self.hand@[i]);
            }
            if c {
                let i = choose|i: int|
                    0 <= i < self.discard@.len() && (#[trigger] self.discard@[i]).enhancement == e;
                assert(all[n + m + i] == self.discard@[i]);
            }
        }
        a || b || c
    }
}

fn any_enhanced(cards: &Vec<Card>, e: Enhancement) -> (r: bool)
    ensures
        r == exists|i: int| 0 <= i < cards@.len() && (#[trigger] cards@[i]).enhancement == e,
{
    let mut i: usize = 0;
    while i < cards.len()
        invariant
            i <= cards.len(),
            forall|j: int| 0 <= j < i ==> (#[trigger] cards@[j]).enhancement != e,
        decreases cards.len() - i,
    {
        if cards[i].enhancement == e {
            return true;
        }
        i = i + 1;
    }
    false
}

/// Which pool to draw from.
pub enum PoolSpec<'a> {
    Joker {
        /// A poll that fixes the rarity; rolled where there is none.
        rarity: Option<Double>,
        legendary: bool,
        append: &'a str,
    },
    Consumable {
        set: ConsumableSet,
        append: &'a str,
    },
    Voucher,
    Tag,
    Enhanced {
        append: &'a str,
    },
}

/// The rarity that a poll stands for.
pub open spec fn rarity_of(poll: Double) -> u8 {
    if Double::frac(95, 100).below(poll) {
        3
    } else if Double::frac(7, 10).below(poll) {
        2
    } else {
        1
    }
}

/// The key of the rarity roll.
pub open spec fn rarity_key(ante: i64, append: Seq<char>) -> Seq<char> {
    "rarity"@ + text::decimal(ante as int) + append
}

/// Of the first `n` jokers, those of a rarity, each with whether it is
/// offered.
pub open spec fn joker_slots(st: PoolState, rarity: u8, n: nat) -> Seq<(Key, bool)>
    decreases n,
{
    if n == 0 {
        seq![]
    } else {
        let before = joker_slots(st, rarity, (n - 1) as nat);
        let m = registry::joker(n - 1);
        if m.rarity == rarity {
            before.push((m.key, st.offers_joker(m)))
        } else {
            before
        }
    }
}

/// The entries of a consumable pool, each with whether it is offered.
pub open spec fn consumable_slots(st: PoolState, set: ConsumableSet) -> Seq<(Key, bool)> {
    let slot = |m: ConsumableMeta| (m.key, st.offers_consumable(set, m));
    match set {
        ConsumableSet::Tarot => Seq::new(22, |i: int| slot(registry::tarot(i))),
        ConsumableSet::Planet => Seq::new(12, |i: int| slot(registry::planet(i))),
        ConsumableSet::Spectral => Seq::new(18, |i: int| slot(registry::spectral(i))),
    }
}

/// What stands in for a pool that offers nothing.
pub open spec fn fallback(spec: PoolSpec) -> Key {
    match spec {
        PoolSpec::Joker { .. } => "j_joker",
        PoolSpec::Consumable { set, .. } => match set {
            ConsumableSet::Tarot => "c_strength",
            ConsumableSet::Planet => "c_pluto",
            ConsumableSet::Spectral => "c_incantation",
        },
        PoolSpec::Voucher => "v_blank",
        PoolSpec::Tag => "tag_handy",
        PoolSpec::Enhanced { .. } => "m_bonus",
    }
}

/// The pool made of entries: the same length, with what is not offered masked;
/// the fallback alone where nothing is offered.
pub open spec fn masked(slots: Seq<(Key, bool)>, fallback: Key) -> Seq<Key> {
    if exists|i: int| 0 <= i < slots.len() && (#[trigger] slots[i]).1 {
        Seq::new(
            slots.len(),
            |i: int|
                if slots[i].1 {
                    slots[i].0
                } else {
                    unavailable()
                },
        )
    } else {
        seq![fallback]
    }
}

/// A pool, the key to draw from it with, and the streams after it was made.
#[verifier::ext_equal]
pub struct Pool {
    pub entries: Seq<Key>,
    pub key: Seq<char>,
    pub streams: Streams,
}

/// The current pool. A joker pool of no fixed rarity takes one roll.
#[verifier::opaque]
pub open spec fn current_pool(s: Streams, spec: PoolSpec, st: PoolState) -> Pool {
    let at_ante = |k: Seq<char>| k + text::decimal(st.ante as int);
    match spec {
        PoolSpec::Joker { rarity, legendary, append } => {
            let rolls = !legendary && rarity is None;
            let roll_key = rarity_key(st.ante, append@);
            let r = if legendary {
                4u8
            } else if rarity is Some {
                rarity_of(rarity->0)
            } else {
                rarity_of(s.unit(roll_key))
            };
            let base = "Joker"@ + text::decimal(r as int);
            Pool {
                entries: masked(joker_slots(st, r, 150), fallback(spec)),
                key: if legendary {
                    base
                } else {
                    at_ante(base + append@)
                },
                streams: if rolls {
                    s.after(roll_key)
                } else {
                    s
                },
            }
        },
        PoolSpec::Consumable { set, append } => Pool {
            entries: masked(consumable_slots(st, set), fallback(spec)),
            key: at_ante(set.text()@ + append@),
            streams: s,
        },
        PoolSpec::Voucher => Pool {
            entries: masked(
                Seq::new(
                    32,
                    |i: int| (registry::voucher(i).key, st.offers_voucher(registry::voucher(i))),
                ),
                fallback(spec),
            ),
            key: at_ante("Voucher"@),
            streams: s,
        },
        PoolSpec::Tag => Pool {
            entries: masked(
                Seq::new(24, |i: int| (registry::tag(i).key, st.offers_tag(registry::tag(i)))),
                fallback(spec),
            ),
            key: at_ante("Tag"@),
            streams: s,
        },
        PoolSpec::Enhanced { append } => Pool {
            entries: masked(Seq::new(8, |i: int| (registry::enhanced(i), true)), fallback(spec)),
            key: at_ante("Enhanced"@ + append@),
            streams: s,
        },
    }
}

fn mask(slots: &Vec<(&'static str, bool)>, fallback: &'static str) -> (r: Vec<&'static str>)
    ensures
        r@ == masked(slots@, fallback),
        r.len() > 0,
{
    let mut pool: Vec<&'static str> = Vec::new();
    let mut any = false;
    let mut i: usize = 0;
    while i < slots.len()
        invariant
            i <= slots.len(),
            pool.len() == i,
            any == exists|j: int| 0 <= j < i && (#[trigger] slots@[j]).1,
            forall|j: int|
                0 <= j < i ==> #[trigger] pool@[j] == if slots@[j].1 {
                    slots@[j].0
                } else {
                    unavailable()
                },
        decreases slots.len() - i,
    {
        let slot = slots[i];
        if slot.1 {
            any = true;
            pool.push(slot.0);
        } else {
            pool.push("UNAVAILABLE");
        }
        assert(slots@[i as int] == slot);
        i = i + 1;
    }
    if any {
        assert(pool@ =~= masked(slots@, fallback));
        pool
    } else {
        let mut one: Vec<&'static str> = Vec::new();
        one.push(fallback);
        assert(one@ =~= masked(slots@, fallback));
        one
    }
}

fn jokers_of(args: &PoolArgs, rarity: u8) -> (r: Vec<(&'static str, bool)>)
    ensures
        r@ == joker_slots(args.state(), rarity, 150),
{
    let mut slots: Vec<(&'static str, bool)> = Vec::new();
    let mut i: usize = 0;
    while i < 150
        invariant
            i <= 150,
            slots@ == joker_slots(args.state(), rarity, i as nat),
        decreases 150 - i,
    {
        let m = registry::joker_at(i);
        if m.rarity == rarity {
            let mut add = !args.used(m.key);
            if add {
                if let Some(gate) = m.enhancement_gate {
                    add = args.has_enhancement(gate);
                }
            }
            if let Some(f) = m.no_pool_flag {
                if args.pool_flags.contains(f) {
                    add = false;
                }
            }
            if let Some(f) = m.yes_pool_flag {
                if !args.pool_flags.contains(f) {
                    add = false;
                }
            }
            slots.push((m.key, add));
        }
        i = i + 1;
    }
    slots
}

fn offers(args: &PoolArgs, set: ConsumableSet, m: &ConsumableMeta) -> (r: bool)
    ensures
        r == args.state().offers_consumable(set, *m),
{
    let mut add = !args.used(m.key);
    if set == ConsumableSet::Spectral && m.hidden {
        add = false;
    }
    if add && set == ConsumableSet::Planet && planet_softlocked(m.key) {
        add = match (args.hands, hand_for_planet(m.key)) {
            (Some(h), Some(ht)) => h.get(ht).played > 0,
            _ => false,
        };
    }
    add
}

fn consumables_of(args: &PoolArgs, set: ConsumableSet) -> (r: Vec<(&'static str, bool)>)
    ensures
        r@ == consumable_slots(args.state(), set),
{
    let n: usize = match set {
        ConsumableSet::Tarot => 22,
        ConsumableSet::Planet => 12,
        ConsumableSet::Spectral => 18,
    };
    let ghost all = consumable_slots(args.state(), set);
    let mut slots: Vec<(&'static str, bool)> = Vec::new();
    let mut i: usize = 0;
    while i < n
        invariant
            i <= n,
            all == consumable_slots(args.state(), set),
            n == all.len(),
            slots@ == all.take(i as int),
        decreases n - i,
    {
        let m = match set {
            ConsumableSet::Tarot => registry::tarot_at(i),
            ConsumableSet::Planet => registry::planet_at(i),
            ConsumableSet::Spectral => registry::spectral_at(i),
        };
        let open = offers(args, set, &m);
        slots.push((m.key, open));
        i = i + 1;
        assert(slots@ =~= all.take(i as int));
    }
    assert(all.take(n as int) =~= all);
    slots
}

fn vouchers_of(args: &PoolArgs) -> (r: Vec<(&'static str, bool)>)
    ensures
        r@ == Seq::new(
            32,
            |i: int|
                (registry::voucher(i).key, args.state().offers_voucher(registry::voucher(i))),
        ),
{
    let ghost f = |i: int|
        (registry::voucher(i).key, args.state().offers_voucher(registry::voucher(i)));
    let mut slots: Vec<(&'static str, bool)> = Vec::new();
    let mut i: usize = 0;
    while i < 32
        invariant
            i <= 32,
            f == (|i: int|
                (registry::voucher(i).key, args.state().offers_voucher(registry::voucher(i)))),
            slots@ == Seq::new(i as nat, f),
        decreases 32 - i,
    {
        let m = registry::voucher_at(i);
        let mut add = !args.used(m.key) && !args.used_vouchers.contains(m.key);
        if add {
            if let Some(req) = m.requires {
                add = args.used_vouchers.contains(req);
            }
        }
        if add && text::list_has(args.shop_vouchers, m.key) {
            add = false;
        }
        slots.push((m.key, add));
        i = i + 1;
        assert(slots@ =~= Seq::new(i as nat, f));
    }
    slots
}

fn tags_of(ante: i64, st: Ghost<PoolState>) -> (r: Vec<(&'static str, bool)>)
    requires
        st@.ante == ante,
    ensures
        r@ == Seq::new(24, |i: int| (registry::tag(i).key, st@.offers_tag(registry::tag(i)))),
{
    let ghost f = |i: int| (registry::tag(i).key, st@.offers_tag(registry::tag(i)));
    let mut slots: Vec<(&'static str, bool)> = Vec::new();
    let mut i: usize = 0;
    while i < 24
        invariant
            i <= 24,
            st@.ante == ante,
            f == (|i: int| (registry::tag(i).key, st@.offers_tag(registry::tag(i)))),
            slots@ == Seq::new(i as nat, f),
        decreases 24 - i,
    {
        let m = registry::tag_at(i);
        let add = match m.min_ante {
            Some(a) => a <= ante,
            None => true,
        };
        slots.push((m.key, add));
        i = i + 1;
        assert(slots@ =~= Seq::new(i as nat, f));
    }
    slots
}

fn enhancements() -> (r: Vec<(&'static str, bool)>)
    ensures
        r@ == Seq::new(8, |i: int| (registry::enhanced(i), true)),
{
    let ghost f = |i: int| (registry::enhanced(i), true);
    let mut slots: Vec<(&'static str, bool)> = Vec::new();
    let mut i: usize = 0;
    while i < 8
        invariant
            i <= 8,
            f == (|i: int| (registry::enhanced(i), true)),
            slots@ == Seq::new(i as nat, f),
        decreases 8 - i,
    {
        slots.push((registry::enhanced_at(i), true));
        i = i + 1;
        assert(slots@ =~= Seq::new(i as nat, f));
    }
    slots
}

fn roll_rarity(rng: &mut RngState, ante: i64, append: &str) -> (r: Double)
    ensures
        r == old(rng)@.unit(rarity_key(ante, append@)),
        final(rng)@ == old(rng)@.after(rarity_key(ante, append@)),
{
    let key = join2(with_number("rarity", ante).as_str(), append);
    rng.random(key.as_str())
}

fn poll_rarity(poll: Double) -> (r: u8)
    ensures
        r == rarity_of(poll),
{
    if Double::lit(95, 100).lt(poll) {
        3
    } else if Double::lit(7, 10).lt(poll) {
        2
    } else {
        1
    }
}

/// The pool to draw from now, and its key.
pub fn get_current_pool(rng: &mut RngState, spec: &PoolSpec, args: &PoolArgs) -> (r: (
    Vec<&'static str>,
    String,
))
    ensures
        ({
            let p = current_pool(old(rng)@, *spec, args.state());
            &&& r.0@ == p.entries
            &&& r.1@ == p.key
            &&& final(rng)@ == p.streams
            &&& r.0.len() > 0
        }),
{
    proof {
        reveal(current_pool);
    }
    match spec {
        PoolSpec::Joker { rarity, legendary, append } => {
            let r: u8 = if *legendary {
                4
            } else {
                let poll = match rarity {
                    Some(f) => *f,
                    None => roll_rarity(rng, args.ante, append),
                };
                poll_rarity(poll)
            };
            let slots = jokers_of(args, r);
            let base = with_number("Joker", r as i64);
            let key = if *legendary {
                base
            } else {
                with_number(join2(base.as_str(), append).as_str(), args.ante)
            };
            (mask(&slots, "j_joker"), key)
        },
        PoolSpec::Consumable { set, append } => {
            let slots = consumables_of(args, *set);
            let fb: &'static str = match set {
                ConsumableSet::Tarot => "c_strength",
                ConsumableSet::Planet => "c_pluto",
                ConsumableSet::Spectral => "c_incantation",
            };
            let key = with_number(join2(set.type_str(), append).as_str(), args.ante);
            (mask(&slots, fb), key)
        },
        PoolSpec::Voucher => {
            let slots = vouchers_of(args);
            (mask(&slots, "v_blank"), with_number("Voucher", args.ante))
        },
        PoolSpec::Tag => {
            let slots = tags_of(args.ante, Ghost(args.state()));
            (mask(&slots, "tag_handy"), with_number("Tag", args.ante))
        },
        PoolSpec::Enhanced { append } => {
            let slots = enhancements();
            let key = with_number(join2("Enhanced", append).as_str(), args.ante);
            (mask(&slots, "m_bonus"), key)
        },
    }
}

/// What is drawn from the current pool, and the streams after.
pub open spec fn rolled(s: Streams, spec: PoolSpec, st: PoolState) -> (Key, Streams) {
    let p = current_pool(s, spec, st);
    drawn(p.streams, p.entries, p.key)
}

/// Draw from the current pool.
pub fn roll_from_pool(rng: &mut RngState, spec: &PoolSpec, args: &PoolArgs) -> (r: &'static str)
    ensures
        r == rolled(old(rng)@, *spec, args.state()).0,
        final(rng)@ == rolled(old(rng)@, *spec, args.state()).1,
{
    let (pool, key) = get_current_pool(rng, spec, args);
    pool_draw(rng, &pool, key.as_str())
}

// ---- editions and packs --------------------------------------------------

/// `1 - rate * x * y`.
pub open spec fn edition_bar(thousandths: nat, x: Double, y: Double) -> Double {
    Double::of(1).minus(Double::frac(thousandths, 1000).times(x).times(y))
}

/// `1 - rate * x`.
pub open spec fn plain_bar(thousandths: nat, x: Double) -> Double {
    Double::of(1).minus(Double::frac(thousandths, 1000).times(x))
}

/// The edition that a poll stands for.
#[verifier::opaque]
pub open spec fn polled_edition(
    poll: Double,
    mod_: Double,
    no_neg: bool,
    guaranteed: bool,
    rate: Double,
) -> Edition {
    if guaranteed {
        let sure = Double::of(25);
        if plain_bar(3, sure).below(poll) && !no_neg {
            Edition::Negative
        } else if plain_bar(6, sure).below(poll) {
            Edition::Polychrome
        } else if plain_bar(20, sure).below(poll) {
            Edition::Holo
        } else if plain_bar(40, sure).below(poll) {
            Edition::Foil
        } else {
            Edition::Plain
        }
    } else if plain_bar(3, mod_).below(poll) && !no_neg {
        Edition::Negative
    } else if edition_bar(6, rate, mod_).below(poll) {
        Edition::Polychrome
    } else if edition_bar(20, rate, mod_).below(poll) {
        Edition::Holo
    } else if edition_bar(40, rate, mod_).below(poll) {
        Edition::Foil
    } else {
        Edition::Plain
    }
}

fn bar(thousandths: u64, x: Double) -> (r: Double)
    ensures
        r == plain_bar(thousandths as nat, x),
{
    Double::from_i64(1).sub(Double::lit(thousandths, 1000).mul(x))
}

fn rated_bar(thousandths: u64, x: Double, y: Double) -> (r: Double)
    ensures
        r == edition_bar(thousandths as nat, x, y),
{
    Double::from_i64(1).sub(Double::lit(thousandths, 1000).mul(x).mul(y))
}

/// Roll an edition with one draw from `key`.
pub fn poll_edition(
    rng: &mut RngState,
    key: &str,
    mod_: Double,
    no_neg: bool,
    guaranteed: bool,
    edition_rate: Double,
) -> (r: Edition)
    ensures
        r == polled_edition(old(rng)@.unit(key@), mod_, no_neg, guaranteed, edition_rate),
        final(rng)@ == old(rng)@.after(key@),
{
    proof {
        reveal(polled_edition);
    }
    let poll = rng.random(key);
    if guaranteed {
        let sure = Double::from_i64(25);
        if bar(3, sure).lt(poll) && !no_neg {
            Edition::Negative
        } else if bar(6, sure).lt(poll) {
            Edition::Polychrome
        } else if bar(20, sure).lt(poll) {
            Edition::Holo
        } else if bar(40, sure).lt(poll) {
            Edition::Foil
        } else {
            Edition::Plain
        }
    } else if bar(3, mod_).lt(poll) && !no_neg {
        Edition::Negative
    } else if rated_bar(6, edition_rate, mod_).lt(poll) {
        Edition::Polychrome
    } else if rated_bar(20, edition_rate, mod_).lt(poll) {
        Edition::Holo
    } else if rated_bar(40, edition_rate, mod_).lt(poll) {
        Edition::Foil
    } else {
        Edition::Plain
    }
}

/// No Negative edition comes where none may.
pub proof fn law_no_negative_where_excluded(poll: Double, m: Double, guaranteed: bool, rate: Double)
    ensures
        polled_edition(poll, m, true, guaranteed, rate) != Edition::Negative,
{
    reveal(polled_edition);
}

/// The weights of the first `n` packs together.
pub open spec fn weight_to(n: nat) -> Double
    decreases n,
{
    if n == 0 {
        Double::of(0)
    } else {
        weight_to((n - 1) as nat).plus(registry::booster(n - 1).weight)
    }
}

/// The first pack from place `i` on whose share of the weights holds the poll;
/// the last one where there is none.
pub open spec fn pack_from(poll: Double, i: nat) -> BoosterMeta
    decreases 32 - i,
{
    if i >= 32 {
        registry::booster(31)
    } else {
        let b = registry::booster(i as int);
        let end = weight_to(i + 1);
        if poll.at_most(end) && end.minus(b.weight).at_most(poll) {
            b
        } else {
            pack_from(poll, i + 1)
        }
    }
}

/// The key of a pack roll.
pub open spec fn pack_key(key: Seq<char>, ante: i64) -> Seq<char> {
    key + text::decimal(ante as int)
}

/// The pack that a roll gives.
#[verifier::opaque]
pub open spec fn rolled_pack(s: Streams, key: Seq<char>, ante: i64) -> BoosterMeta {
    pack_from(s.unit(pack_key(key, ante)).times(weight_to(32)), 0)
}

fn all_weights() -> (r: Double)
    ensures
        r == weight_to(32),
{
    let mut sum = Double::from_i64(0);
    let mut i: usize = 0;
    while i < 32
        invariant
            i <= 32,
            sum == weight_to(i as nat),
        decreases 32 - i,
    {
        sum = sum.add(registry::booster_at(i).weight);
        i = i + 1;
    }
    sum
}

/// Roll a booster pack by weight.
pub fn get_pack_roll(rng: &mut RngState, key: &str, ante: i64) -> (r: BoosterMeta)
    ensures
        r == rolled_pack(old(rng)@, key@, ante),
        final(rng)@ == old(rng)@.after(pack_key(key@, ante)),
{
    proof {
        reveal(rolled_pack);
    }
    let cume = all_weights();
    let full = with_number(key, ante);
    let poll = rng.random(full.as_str()).mul(cume);
    let mut it = Double::from_i64(0);
    let mut i: usize = 0;
    while i < 32
        invariant
            i <= 32,
            it == weight_to(i as nat),
            pack_from(poll, 0) == pack_from(poll, i as nat),
            rolled_pack(old(rng)@, key@, ante) == pack_from(poll, 0),
            rng@ == old(rng)@.after(pack_key(key@, ante)),
        decreases 32 - i,
    {
        let b = registry::booster_at(i);
        it = it.add(b.weight);
        if poll.le(it) && it.sub(b.weight).le(poll) {
            return b;
        }
        i = i + 1;
    }
    registry::booster_at(31)
}

/// A pool has as many entries as its registry holds of the kind, offered or
/// not, unless nothing is offered.
pub proof fn law_pools_keep_their_length(slots: Seq<(Key, bool)>, fb: Key)
    ensures
        masked(slots, fb).len() == slots.len() || masked(slots, fb) == seq![fb],
        masked(slots, fb).len() > 0,
{
}

} // verus!
