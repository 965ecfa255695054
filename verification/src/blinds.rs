//! Blinds: what they ask for, how a boss is chosen, and what a boss does to
//! cards and hands.
use crate::cards::{Card, HandType, Suit};
use crate::double::Double;
use crate::exact::{lemma_difference, lemma_product, lemma_quotient, lemma_whole};
use crate::keymap::KeyMap;
use crate::perhand::PerHand;
use crate::registry::Key;
use crate::rng::{RngState, Streams};
use crate::scoring::HandsTable;
use crate::text::same_text;
use vstd::prelude::*;

verus! {

/// The chips that an ante asks for before a blind's own factor.
pub open spec fn base_amount(ante: i64) -> int {
    if ante < 1 {
        100
    } else if ante == 1 {
        300
    } else if ante == 2 {
        800
    } else if ante == 3 {
        2000
    } else if ante == 4 {
        5000
    } else if ante == 5 {
        11000
    } else if ante == 6 {
        20000
    } else if ante == 7 {
        35000
    } else {
        50000
    }
}

/// The chips of an ante up to 8. Past it the amounts follow real powers; they
/// come from outside (see [`BlindProto::chips_of`]).
pub fn get_blind_amount(ante: i64) -> (r: Double)
    requires
        ante <= 8,
    ensures
        r == Double::of(base_amount(ante)),
{
    if ante < 1 {
        Double::from_i64(100)
    } else if ante == 1 {
        Double::from_i64(300)
    } else if ante == 2 {
        Double::from_i64(800)
    } else if ante == 3 {
        Double::from_i64(2000)
    } else if ante == 4 {
        Double::from_i64(5000)
    } else if ante == 5 {
        Double::from_i64(11000)
    } else if ante == 6 {
        Double::from_i64(20000)
    } else if ante == 7 {
        Double::from_i64(35000)
    } else {
        Double::from_i64(50000)
    }
}

/// The amount of an ante past 8, from its power `raw` and the unit that it is
/// rounded down to.
pub fn late_amount(raw: Double, step: Double) -> (r: Double)
    ensures
        r == raw.floored().minus(remainder(raw.floored(), step)),
{
    let amount = raw.floor();
    amount.sub(lua_fmod(amount, step))
}

/// What a boss takes exception to.
#[derive(Debug, Clone, Copy, PartialEq, Eq, Structural)]
pub enum BossDebuff {
    Nothing,
    /// Cards of a suit.
    Suit(Suit),
    /// Face cards.
    Face,
    /// Hands of fewer cards.
    HandSizeGe(usize),
}

/// A blind as the registry has it.
#[derive(Debug, Clone, Copy, PartialEq, Eq)]
pub struct BlindProto {
    pub key: Key,
    pub name: &'static str,
    pub dollars: i64,
    /// Twice the factor on the chips of the ante.
    pub mult_x2: i64,
    /// The first ante of a boss; 0 for the Small and the Big Blind.
    pub boss_min: i64,
    /// A boss of the final ante.
    pub showdown: bool,
    pub is_boss: bool,
    pub debuff: BossDebuff,
}

impl BlindProto {
    pub open spec fn factor(self) -> Double {
        Double::of(self.mult_x2 as int).over(Double::of(2))
    }

    /// The chips that the blind asks for, given those of its ante.
    pub open spec fn asked(self, amount: Double) -> Double {
        amount.times(self.factor()).times(Double::of(1))
    }

    pub fn mult(&self) -> (r: Double)
        ensures
            r == self.factor(),
    {
        Double::from_i64(self.mult_x2).div(Double::from_i64(2))
    }

    pub fn chips_of(&self, amount: Double) -> (r: Double)
        ensures
            r == self.asked(amount),
    {
        amount.mul(self.mult()).mul(Double::from_i64(1))
    }

    pub fn chips(&self, ante: i64) -> (r: Double)
        requires
            ante <= 8,
        ensures
            r == self.asked(Double::of(base_amount(ante))),
    {
        self.chips_of(get_blind_amount(ante))
    }
}

/// A row of the blind registry.
pub open spec fn blind(
    key: Key,
    name: &'static str,
    dollars: i64,
    mult_x2: i64,
    boss_min: i64,
    showdown: bool,
    debuff: BossDebuff,
) -> BlindProto {
    BlindProto {
        key,
        name,
        dollars,
        mult_x2,
        boss_min,
        showdown,
        is_boss: boss_min > 0,
        debuff,
    }
}

fn make_blind(
    key: Key,
    name: &'static str,
    dollars: i64,
    mult_x2: i64,
    boss_min: i64,
    showdown: bool,
    debuff: BossDebuff,
) -> (r: BlindProto)
    ensures
        r == blind(key, name, dollars, mult_x2, boss_min, showdown, debuff),
{
    BlindProto {
        key,
        name,
        dollars,
        mult_x2,
        boss_min,
        showdown,
        is_boss: boss_min > 0,
        debuff,
    }
}

pub open spec fn small_blind() -> BlindProto {
    blind("bl_small", "Small Blind", 3, 2, 0, false, BossDebuff::Nothing)
}

pub open spec fn big_blind() -> BlindProto {
    blind("bl_big", "Big Blind", 4, 3, 0, false, BossDebuff::Nothing)
}

pub fn bl_small() -> (r: BlindProto)
    ensures
        r == small_blind(),
{
    make_blind("bl_small", "Small Blind", 3, 2, 0, false, BossDebuff::Nothing)
}

pub fn bl_big() -> (r: BlindProto)
    ensures
        r == big_blind(),
{
    make_blind("bl_big", "Big Blind", 4, 3, 0, false, BossDebuff::Nothing)
}

/// The bosses in the byte order of their keys.
#[verifier::opaque]
pub open spec fn boss(i: int) -> BlindProto {
    if i == 0 {
        blind("bl_arm", "The Arm", 5, 4, 2, false, BossDebuff::Nothing)
    } else if i == 1 {
        blind("bl_club", "The Club", 5, 4, 1, false, BossDebuff::Suit(Suit::Clubs))
    } else if i == 2 {
        blind("bl_eye", "The Eye", 5, 4, 3, false, BossDebuff::Nothing)
    } else if i == 3 {
        blind("bl_final_acorn", "Amber Acorn", 8, 4, 10, true, BossDebuff::Nothing)
    } else if i == 4 {
        blind("bl_final_bell", "Cerulean Bell", 8, 4, 10, true, BossDebuff::Nothing)
    } else if i == 5 {
        blind("bl_final_heart", "Crimson Heart", 8, 4, 10, true, BossDebuff::Nothing)
    } else if i == 6 {
        blind("bl_final_leaf", "Verdant Leaf", 8, 4, 10, true, BossDebuff::Nothing)
    } else if i == 7 {
        blind("bl_final_vessel", "Violet Vessel", 8, 12, 10, true, BossDebuff::Nothing)
    } else if i == 8 {
        blind("bl_fish", "The Fish", 5, 4, 2, false, BossDebuff::Nothing)
    } else if i == 9 {
        blind("bl_flint", "The Flint", 5, 4, 2, false, BossDebuff::Nothing)
    } else if i == 10 {
        blind("bl_goad", "The Goad", 5, 4, 1, false, BossDebuff::Suit(Suit::Spades))
    } else if i == 11 {
        blind("bl_head", "The Head", 5, 4, 1, false, BossDebuff::Suit(Suit::Hearts))
    } else if i == 12 {
        blind("bl_hook", "The Hook", 5, 4, 1, false, BossDebuff::Nothing)
    } else if i == 13 {
        blind("bl_house", "The House", 5, 4, 2, false, BossDebuff::Nothing)
    } else if i == 14 {
        blind("bl_manacle", "The Manacle", 5, 4, 1, false, BossDebuff::Nothing)
    } else if i == 15 {
        blind("bl_mark", "The Mark", 5, 4, 2, false, BossDebuff::Nothing)
    } else if i == 16 {
        blind("bl_mouth", "The Mouth", 5, 4, 2, false, BossDebuff::Nothing)
    } else if i == 17 {
        blind("bl_needle", "The Needle", 5, 2, 2, false, BossDebuff::Nothing)
    } else if i == 18 {
        blind("bl_ox", "The Ox", 5, 4, 6, false, BossDebuff::Nothing)
    } else if i == 19 {
        blind("bl_pillar", "The Pillar", 5, 4, 1, false, BossDebuff::Nothing)
    } else if i == 20 {
        blind("bl_plant", "The Plant", 5, 4, 4, false, BossDebuff::Face)
    } else if i == 21 {
        blind("bl_psychic", "The Psychic", 5, 4, 1, false, BossDebuff::HandSizeGe(5))
    } else if i == 22 {
        blind("bl_serpent", "The Serpent", 5, 4, 5, false, BossDebuff::Nothing)
    } else if i == 23 {
        blind("bl_tooth", "The Tooth", 5, 4, 3, false, BossDebuff::Nothing)
    } else if i == 24 {
        blind("bl_wall", "The Wall", 5, 8, 2, false, BossDebuff::Nothing)
    } else if i == 25 {
        blind("bl_water", "The Water", 5, 4, 2, false, BossDebuff::Nothing)
    } else if i == 26 {
        blind("bl_wheel", "The Wheel", 5, 4, 2, false, BossDebuff::Nothing)
    } else {
        blind("bl_window", "The Window", 5, 4, 1, false, BossDebuff::Suit(Suit::Diamonds))
    }
}

pub fn boss_at(i: usize) -> (r: BlindProto)
    requires
        i < 28,
    ensures
        r == boss(i as int),
{
    proof {
        reveal(boss);
    }
    if i == 0 {
        make_blind("bl_arm", "The Arm", 5, 4, 2, false, BossDebuff::Nothing)
    } else if i == 1 {
        make_blind("bl_club", "The Club", 5, 4, 1, false, BossDebuff::Suit(Suit::Clubs))
    } else if i == 2 {
        make_blind("bl_eye", "The Eye", 5, 4, 3, false, BossDebuff::Nothing)
    } else if i == 3 {
        make_blind("bl_final_acorn", "Amber Acorn", 8, 4, 10, true, BossDebuff::Nothing)
    } else if i == 4 {
        make_blind("bl_final_bell", "Cerulean Bell", 8, 4, 10, true, BossDebuff::Nothing)
    } else if i == 5 {
        make_blind("bl_final_heart", "Crimson Heart", 8, 4, 10, true, BossDebuff::Nothing)
    } else if i == 6 {
        make_blind("bl_final_leaf", "Verdant Leaf", 8, 4, 10, true, BossDebuff::Nothing)
    } else if i == 7 {
        make_blind("bl_final_vessel", "Violet Vessel", 8, 12, 10, true, BossDebuff::Nothing)
    } else if i == 8 {
        make_blind("bl_fish", "The Fish", 5, 4, 2, false, BossDebuff::Nothing)
    } else if i == 9 {
        make_blind("bl_flint", "The Flint", 5, 4, 2, false, BossDebuff::Nothing)
    } else if i == 10 {
        make_blind("bl_goad", "The Goad", 5, 4, 1, false, BossDebuff::Suit(Suit::Spades))
    } else if i == 11 {
        make_blind("bl_head", "The Head", 5, 4, 1, false, BossDebuff::Suit(Suit::Hearts))
    } else if i == 12 {
        make_blind("bl_hook", "The Hook", 5, 4, 1, false, BossDebuff::Nothing)
    } else if i == 13 {
        make_blind("bl_house", "The House", 5, 4, 2, false, BossDebuff::Nothing)
    } else if i == 14 {
        make_blind("bl_manacle", "The Manacle", 5, 4, 1, false, BossDebuff::Nothing)
    } else if i == 15 {
        make_blind("bl_mark", "The Mark", 5, 4, 2, false, BossDebuff::Nothing)
    } else if i == 16 {
        make_blind("bl_mouth", "The Mouth", 5, 4, 2, false, BossDebuff::Nothing)
    } else if i == 17 {
        make_blind("bl_needle", "The Needle", 5, 2, 2, false, BossDebuff::Nothing)
    } else if i == 18 {
        make_blind("bl_ox", "The Ox", 5, 4, 6, false, BossDebuff::Nothing)
    } else if i == 19 {
        make_blind("bl_pillar", "The Pillar", 5, 4, 1, false, BossDebuff::Nothing)
    } else if i == 20 {
        make_blind("bl_plant", "The Plant", 5, 4, 4, false, BossDebuff::Face)
    } else if i == 21 {
        make_blind("bl_psychic", "The Psychic", 5, 4, 1, false, BossDebuff::HandSizeGe(5))
    } else if i == 22 {
        make_blind("bl_serpent", "The Serpent", 5, 4, 5, false, BossDebuff::Nothing)
    } else if i == 23 {
        make_blind("bl_tooth", "The Tooth", 5, 4, 3, false, BossDebuff::Nothing)
    } else if i == 24 {
        make_blind("bl_wall", "The Wall", 5, 8, 2, false, BossDebuff::Nothing)
    } else if i == 25 {
        make_blind("bl_water", "The Water", 5, 4, 2, false, BossDebuff::Nothing)
    } else if i == 26 {
        make_blind("bl_wheel", "The Wheel", 5, 4, 2, false, BossDebuff::Nothing)
    } else {
        make_blind("bl_window", "The Window", 5, 4, 1, false, BossDebuff::Suit(Suit::Diamonds))
    }
}

/// The first boss with a key from place `i` on.
pub open spec fn boss_from(key: Seq<char>, i: nat) -> Option<BlindProto>
    decreases 28 - i,
{
    if i >= 28 {
        None
    } else if boss(i as int).key@ == key {
        Some(boss(i as int))
    } else {
        boss_from(key, i + 1)
    }
}

pub(crate) fn find_boss(key: &str) -> (r: Option<BlindProto>)
    ensures
        r == boss_from(key@, 0),
{
    let mut i: usize = 0;
    while i < 28
        invariant
            i <= 28,
            boss_from(key@, 0) == boss_from(key@, i as nat),
        decreases 28 - i,
    {
        let b = boss_at(i);
        if same_text(b.key, key) {
            return Some(b);
        }
        i = i + 1;
    }
    None
}

/// The boss with a key.
pub fn boss_by_key(key: &str) -> (r: BlindProto)
    requires
        boss_from(key@, 0) is Some,
    ensures
        Some(r) == boss_from(key@, 0),
{
    match find_boss(key) {
        Some(b) => b,
        None => bl_small(),
    }
}

/// The blind with a key.
pub open spec fn blind_named(key: Seq<char>) -> Option<BlindProto> {
    if key == small_blind().key@ {
        Some(small_blind())
    } else if key == big_blind().key@ {
        Some(big_blind())
    } else {
        boss_from(key, 0)
    }
}

/// Any blind by its key.
pub fn blind_by_key(key: &str) -> (r: Option<BlindProto>)
    ensures
        r == blind_named(key@),
{
    if same_text(key, bl_small().key) {
        Some(bl_small())
    } else if same_text(key, bl_big().key) {
        Some(bl_big())
    } else {
        find_boss(key)
    }
}

/// The remainder `a - floor(a / b) * b`.
pub open spec fn remainder(a: Double, b: Double) -> Double {
    a.minus(a.over(b).floored().times(b))
}

fn lua_fmod(a: Double, b: Double) -> (r: Double)
    ensures
        r == remainder(a, b),
{
    a.sub(a.div(b).floor().mul(b))
}

/// Whether `ante` is a multiple of the winning ante.
pub open spec fn divides(win_ante: i64, ante: i64) -> bool {
    remainder(Double::of(ante as int), Double::of(win_ante as int)).same_value(Double::of(0))
}

pub open spec fn at_least_one(ante: i64) -> i64 {
    if ante < 1 {
        1
    } else {
        ante
    }
}

/// Whether a boss may come at an ante: a showdown boss at multiples of the
/// winning ante from ante 2 on, any other boss elsewhere from its own ante on.
pub open spec fn may_come(b: BlindProto, ante: i64, win_ante: i64) -> bool {
    if b.showdown {
        divides(win_ante, ante) && ante >= 2
    } else {
        b.boss_min <= at_least_one(ante) && (!divides(win_ante, at_least_one(ante)) || ante < 2)
    }
}

/// How often a boss has come.
pub open spec fn uses(used: Map<Seq<char>, i64>, key: Seq<char>) -> i64 {
    if used.dom().contains(key) {
        used[key]
    } else {
        0
    }
}

/// Whether the boss at place `i` may come and none that may has come less
/// often.
pub open spec fn is_least_used(
    used: Map<Seq<char>, i64>,
    ante: i64,
    win_ante: i64,
    i: int,
) -> bool {
    may_come(boss(i), ante, win_ante) && forall|j: int|
        0 <= j < 28 && may_come(#[trigger] boss(j), ante, win_ante) ==> uses(used, boss(i).key@)
            <= uses(used, boss(j).key@)
}

/// Among the first `n` bosses, those to choose from, in key order.
pub open spec fn boss_choices(
    used: Map<Seq<char>, i64>,
    ante: i64,
    win_ante: i64,
    n: nat,
) -> Seq<Key>
    decreases n,
{
    if n == 0 {
        seq![]
    } else {
        let before = boss_choices(used, ante, win_ante, (n - 1) as nat);
        if is_least_used(used, ante, win_ante, n - 1) {
            before.push(boss(n - 1).key)
        } else {
            before
        }
    }
}

/// The boss that comes next.
#[verifier::opaque]
pub open spec fn next_boss(
    s: Streams,
    used: Map<Seq<char>, i64>,
    ante: i64,
    win_ante: i64,
) -> Key {
    let choices = boss_choices(used, ante, win_ante, 28);
    choices[s.place("boss"@, choices.len())]
}

/// The key of some boss.
pub open spec fn is_boss_key(key: Key) -> bool {
    exists|i: int| 0 <= i < 28 && key == (#[trigger] boss(i)).key
}

/// The count of bosses after one came.
pub open spec fn counted(used: Map<Seq<char>, i64>, key: Seq<char>) -> Map<Seq<char>, i64> {
    used.insert(key, uses(used, key).wrapping_add(1))
}

fn may_come_now(b: &BlindProto, ante: i64, win_ante: i64) -> (r: bool)
    ensures
        r == may_come(*b, ante, win_ante),
{
    let clamped: i64 = if ante < 1 {
        1
    } else {
        ante
    };
    let zero = Double::from_i64(0);
    if !b.showdown {
        b.boss_min <= clamped && (!lua_fmod(
            Double::from_i64(clamped),
            Double::from_i64(win_ante),
        ).equals(zero) || ante < 2)
    } else {
        lua_fmod(Double::from_i64(ante), Double::from_i64(win_ante)).equals(zero) && ante >= 2
    }
}

/// The multiples of an ante, in whole numbers.
pub proof fn law_multiples_in_whole_numbers(win_ante: i64, ante: i64)
    requires
        0 < win_ante < 0x20_0000_0000_0000,
        0 <= ante < 0x20_0000_0000_0000,
    ensures
        divides(win_ante, ante) <==> ante as int % win_ante as int == 0,
{
    let n = ante as nat;
    let d = win_ante as nat;
    let x = Double::of(ante as int);
    let y = Double::of(win_ante as int);
    lemma_whole(n);
    lemma_whole(d);
    lemma_quotient(x, n, 0, y, d);
    vstd::arithmetic::power2::lemma2_to64();
    assert(d * vstd::arithmetic::power2::pow2(0) == d);
    let f = n / d;
    vstd::arithmetic::div_mod::lemma_fundamental_div_mod(n as int, d as int);
    assert(d * f == f * d) by (nonlinear_arith);
    lemma_product(x.over(y).floored(), f, 0, y, d);
    lemma_difference(x, n, x.over(y).floored().times(y), f * d);
}

/// Which bosses may come, in whole numbers: the showdown bosses at the multiples
/// of the winning ante, the others at every other ante from their own on.
pub proof fn law_bosses_by_whole_antes(b: BlindProto, ante: i64, win_ante: i64)
    requires
        0 < win_ante < 0x20_0000_0000_0000,
        ante < 0x20_0000_0000_0000,
    ensures
        may_come(b, ante, win_ante) == if b.showdown {
            ante >= 2 && ante as int % win_ante as int == 0
        } else {
            b.boss_min <= at_least_one(ante) && (ante < 2 || ante as int % win_ante as int != 0)
        },
{
    if ante >= 2 {
        law_multiples_in_whole_numbers(win_ante, ante);
    }
}

/// At every ante some boss may come.
pub proof fn law_some_boss_may_come(ante: i64, win_ante: i64)
    ensures
        exists|i: int| 0 <= i < 28 && may_come(#[trigger] boss(i), ante, win_ante),
{
    reveal(boss);
    if divides(win_ante, ante) && ante >= 2 {
        assert(may_come(boss(3), ante, win_ante));
    } else {
        assert(may_come(boss(1), ante, win_ante));
    }
}

proof fn lemma_choice_counted(used: Map<Seq<char>, i64>, ante: i64, win_ante: i64, i: nat, n: nat)
    requires
        i < n,
        is_least_used(used, ante, win_ante, i as int),
    ensures
        boss_choices(used, ante, win_ante, n).len() > 0,
    decreases n,
{
    if i < n - 1 {
        lemma_choice_counted(used, ante, win_ante, i, (n - 1) as nat);
    }
}

/// Whether the boss at place `i` may come and none of the first `n` that may has
/// come less often.
spec fn is_least_among(
    used: Map<Seq<char>, i64>,
    ante: i64,
    win_ante: i64,
    i: int,
    n: nat,
) -> bool {
    0 <= i < n && may_come(boss(i), ante, win_ante) && forall|j: int|
        0 <= j < n && may_come(#[trigger] boss(j), ante, win_ante) ==> uses(used, boss(i).key@)
            <= uses(used, boss(j).key@)
}

proof fn lemma_least(used: Map<Seq<char>, i64>, ante: i64, win_ante: i64, n: nat) -> (i: int)
    ensures
        is_least_among(used, ante, win_ante, i, n) || forall|j: int|
            0 <= j < n ==> !may_come(#[trigger] boss(j), ante, win_ante),
    decreases n,
{
    if n == 0 {
        0
    } else {
        let m = (n - 1) as nat;
        let i = lemma_least(used, ante, win_ante, m);
        if !may_come(boss(m as int), ante, win_ante) {
            i
        } else if is_least_among(used, ante, win_ante, i, m) && uses(used, boss(i).key@) <= uses(
            used,
            boss(m as int).key@,
        ) {
            i
        } else {
            m as int
        }
    }
}

proof fn lemma_choices(used: Map<Seq<char>, i64>, ante: i64, win_ante: i64, n: nat, k: int)
    requires
        0 <= k < boss_choices(used, ante, win_ante, n).len(),
    ensures
        exists|i: int|
            0 <= i < n && is_least_used(used, ante, win_ante, i) && boss_choices(
                used,
                ante,
                win_ante,
                n,
            )[k] == (#[trigger] boss(i)).key,
    decreases n,
{
    if n > 0 {
        let m = (n - 1) as nat;
        let before = boss_choices(used, ante, win_ante, m);
        if k < before.len() {
            lemma_choices(used, ante, win_ante, m, k);
        } else {
            assert(is_least_used(used, ante, win_ante, m as int));
            assert(boss_choices(used, ante, win_ante, n)[k] == boss(m as int).key);
        }
    }
}

/// The boss that comes next may come at its ante, and none that may has come
/// less often.
pub proof fn law_next_boss_is_least_used(
    s: Streams,
    used: Map<Seq<char>, i64>,
    ante: i64,
    win_ante: i64,
)
    ensures
        exists|i: int|
            0 <= i < 28 && is_least_used(used, ante, win_ante, i) && next_boss(
                s,
                used,
                ante,
                win_ante,
            ) == (#[trigger] boss(i)).key,
{
    reveal(next_boss);
    law_some_boss_may_come(ante, win_ante);
    let i = lemma_least(used, ante, win_ante, 28);
    assert(is_least_among(used, ante, win_ante, i, 28));
    assert(is_least_used(used, ante, win_ante, i));
    lemma_choice_counted(used, ante, win_ante, i as nat, 28);
    let choices = boss_choices(used, ante, win_ante, 28);
    lemma_choices(used, ante, win_ante, 28, s.place("boss"@, choices.len()));
}

/// A boss is found by its key.
pub proof fn law_bosses_are_found(i: nat, from: nat)
    requires
        from <= i < 28,
    ensures
        boss_from(boss(i as int).key@, from) is Some,
    decreases i - from,
{
    if from < i {
        law_bosses_are_found(i, from + 1);
    }
}

fn use_count(used: &KeyMap<i64>, key: &str) -> (r: i64)
    ensures
        r == uses(used@, key@),
{
    match used.get(key) {
        Some(n) => n,
        None => 0,
    }
}

/// Choose the next boss and count it.
pub fn get_new_boss(
    rng: &mut RngState,
    bosses_used: &mut KeyMap<i64>,
    ante: i64,
    win_ante: i64,
) -> (r: &'static str)
    ensures
        r == next_boss(old(rng)@, old(bosses_used)@, ante, win_ante),
        final(rng)@ == old(rng)@.after("boss"@),
        final(bosses_used)@ == counted(old(bosses_used)@, r@),
        is_boss_key(r),
{
    let ghost used = bosses_used@;
    let mut least: i64 = i64::MAX;
    let mut best: usize = 28;
    let mut i: usize = 0;
    while i < 28
        invariant
            i <= 28,
            bosses_used@ == used,
            best == 28 ==> forall|j: int|
                0 <= j < i ==> !may_come(#[trigger] boss(j), ante, win_ante),
            best != 28 ==> best < i && may_come(boss(best as int), ante, win_ante) && least == uses(
                used,
                boss(best as int).key@,
            ),
            forall|j: int|
                0 <= j < i && may_come(#[trigger] boss(j), ante, win_ante) ==> best != 28 && least
                    <= uses(used, boss(j).key@),
        decreases 28 - i,
    {
        let b = boss_at(i);
        if may_come_now(&b, ante, win_ante) {
            let n: i64 = use_count(bosses_used, b.key);
            if best == 28 || n < least {
                least = n;
                best = i;
            }
        }
        i = i + 1;
    }
    proof {
        law_some_boss_may_come(ante, win_ante);
        assert(is_least_used(used, ante, win_ante, best as int));
        lemma_choice_counted(used, ante, win_ante, best as nat, 28);
    }
    let mut choices: Vec<&'static str> = Vec::new();
    let mut i: usize = 0;
    while i < 28
        invariant
            i <= 28,
            bosses_used@ == used,
            choices@ == boss_choices(used, ante, win_ante, i as nat),
            best < 28,
            is_least_used(used, ante, win_ante, best as int),
            least == uses(used, boss(best as int).key@),
            forall|j: int| 0 <= j < choices@.len() ==> is_boss_key(#[trigger] choices@[j]),
        decreases 28 - i,
    {
        let b = boss_at(i);
        if may_come_now(&b, ante, win_ante) && use_count(bosses_used, b.key) <= least {
            assert(is_least_used(used, ante, win_ante, i as int));
            choices.push(b.key);
        }
        i = i + 1;
    }
    let k: usize = rng.random_place("boss", choices.len());
    let chosen = choices[k];
    proof {
        reveal(next_boss);
    }
    let n: i64 = use_count(bosses_used, chosen);
    bosses_used.insert(chosen, n.wrapping_add(1));
    chosen
}

/// The blind of the current round.
#[derive(Debug, Clone, Copy, PartialEq, Eq)]
pub struct ActiveBlind {
    pub proto: BlindProto,
    /// The chips that it asks for.
    pub chips: Double,
    pub disabled: bool,
    /// It had an effect.
    pub triggered: bool,
    /// The Fish: a hand was played since the last draw.
    pub prepped: bool,
    /// The Eye: the hands that were played.
    pub eye_hands: PerHand<bool>,
    /// The Mouth: the one hand that counts.
    pub only_hand: Option<HandType>,
    /// The Water: the discards that it took.
    pub discards_sub: i64,
    /// The Needle: the hands that it took.
    pub hands_sub: i64,
}

/// What a played hand does to the blind, the hands table and the money.
pub struct HandVerdict {
    pub blind: ActiveBlind,
    pub hands: HandsTable,
    pub dollars: i64,
    /// The hand scores nothing.
    pub debuffed: bool,
}

impl ActiveBlind {
    /// The blind at the start of its round, for the chips of its ante.
    pub open spec fn fresh(proto: BlindProto, amount: Double) -> ActiveBlind {
        ActiveBlind {
            proto,
            chips: proto.asked(amount),
            disabled: false,
            triggered: false,
            prepped: proto.name@ != "The Fish"@,
            eye_hands: PerHand::all(false),
            only_hand: None,
            discards_sub: 0,
            hands_sub: 0,
        }
    }

    pub open spec fn named(self, name: Seq<char>) -> bool {
        self.proto.name@ == name
    }

    /// The blind of a round, for the chips of its ante.
    pub fn with_amount(proto: BlindProto, amount: Double) -> (r: Self)
        ensures
            r == ActiveBlind::fresh(proto, amount),
    {
        ActiveBlind {
            proto,
            chips: proto.chips_of(amount),
            disabled: false,
            triggered: false,
            prepped: !same_text(proto.name, "The Fish"),
            eye_hands: PerHand::uniform(false),
            only_hand: None,
            discards_sub: 0,
            hands_sub: 0,
        }
    }

    /// The blind of a round at an ante up to 8.
    pub fn new(proto: BlindProto, ante: i64) -> (r: Self)
        requires
            ante <= 8,
        ensures
            r == ActiveBlind::fresh(proto, Double::of(base_amount(ante))),
    {
        ActiveBlind::with_amount(proto, get_blind_amount(ante))
    }

    pub(crate) fn is(&self, name: &str) -> (r: bool)
        ensures
            r == self.named(name@),
    {
        same_text(self.proto.name, name)
    }

    /// Half of a base value, rounded, but at least `least`.
    pub open spec fn halved(x: Double, least: int) -> Double {
        x.times(Double::frac(5, 10)).plus(Double::frac(5, 10)).floored().larger(Double::of(least))
    }

    /// Whether the Flint halves the base values.
    pub open spec fn halves(self) -> bool {
        !self.disabled && self.named("The Flint"@)
    }

    /// Let the blind change the base multiplier and chips: the Flint halves
    /// both.
    pub fn modify_hand(&mut self, mult: Double, hand_chips: Double) -> (r: (Double, Double, bool))
        ensures
            *final(self) == (ActiveBlind {
                triggered: old(self).triggered || old(self).halves(),
                ..*old(self)
            }),
            r == if old(self).halves() {
                (ActiveBlind::halved(mult, 1), ActiveBlind::halved(hand_chips, 0), true)
            } else {
                (mult, hand_chips, false)
            },
    {
        if self.disabled {
            return (mult, hand_chips, false);
        }
        if self.is("The Flint") {
            self.triggered = true;
            let half = Double::lit(5, 10);
            return (
                mult.mul(half).add(half).floor().max(Double::from_i64(1)),
                hand_chips.mul(half).add(half).floor().max(Double::from_i64(0)),
                true,
            );
        }
        (mult, hand_chips, false)
    }

    /// What becomes of the blind, the hands and the money when `played` cards
    /// are played as `ht`: the Psychic refuses small hands, the Eye a hand
    /// that was played before, the Mouth any hand but the first; the Arm takes
    /// a level, the Ox all money for the most played hand.
    #[verifier::opaque]
    pub open spec fn verdict(
        self,
        played: nat,
        ht: HandType,
        hands: HandsTable,
        dollars: i64,
        most_played: HandType,
    ) -> HandVerdict {
        let refused = HandVerdict {
            blind: ActiveBlind { triggered: true, ..self },
            hands,
            dollars,
            debuffed: true,
        };
        let quiet = ActiveBlind { triggered: false, ..self };
        if self.disabled {
            HandVerdict { blind: self, hands, dollars, debuffed: false }
        } else if (self.proto.debuff matches BossDebuff::HandSizeGe(n) && played < n) {
            refused
        } else if self.named("The Eye"@) && self.eye_hands.at(ht) {
            refused
        } else {
            let b = if self.named("The Eye"@) {
                ActiveBlind { eye_hands: self.eye_hands.with(ht, true), ..quiet }
            } else {
                quiet
            };
            if self.named("The Mouth"@) && self.only_hand is Some && self.only_hand != Some(ht) {
                HandVerdict {
                    blind: ActiveBlind { triggered: true, ..b },
                    hands,
                    dollars,
                    debuffed: true,
                }
            } else {
                let b = if self.named("The Mouth"@) {
                    ActiveBlind { only_hand: Some(ht), ..b }
                } else {
                    b
                };
                let arm = self.named("The Arm"@) && hands.row(ht).level > 1;
                let ox = self.named("The Ox"@) && ht == most_played;
                HandVerdict {
                    blind: ActiveBlind {
                        triggered: if self.named("The Ox"@) {
                            ox
                        } else {
                            arm
                        },
                        ..b
                    },
                    hands: if arm {
                        hands.leveled_up(ht, (-1) as i64)
                    } else {
                        hands
                    },
                    dollars: if ox {
                        0
                    } else {
                        dollars
                    },
                    debuffed: false,
                }
            }
        }
    }

    /// Let the blind judge a played hand; true if it scores nothing.
    #[verifier::spinoff_prover]
    #[verifier::rlimit(60)]
    pub fn debuff_hand(
        &mut self,
        played_count: usize,
        handname: HandType,
        hands: &mut HandsTable,
        dollars: &mut i64,
        most_played: HandType,
    ) -> (r: bool)
        ensures
            ({
                let v = old(self).verdict(
                    played_count as nat,
                    handname,
                    *old(hands),
                    *old(dollars),
                    most_played,
                );
                &&& r == v.debuffed
                &&& *final(self) == v.blind
                &&& *final(hands) == v.hands
                &&& *final(dollars) == v.dollars
            }),
    {
        proof {
            reveal(ActiveBlind::verdict);
        }
        if self.disabled {
            return false;
        }
        self.triggered = false;
        if let BossDebuff::HandSizeGe(n) = self.proto.debuff {
            if played_count < n {
                self.triggered = true;
                return true;
            }
        }
        if self.is("The Eye") {
            if self.eye_hands.get(handname) {
                self.triggered = true;
                return true;
            }
            self.eye_hands.set(handname, true);
        }
        if self.is("The Mouth") {
            if let Some(only) = self.only_hand {
                if only != handname {
                    self.triggered = true;
                    return true;
                }
            }
            self.only_hand = Some(handname);
        }
        if self.is("The Arm") {
            self.triggered = false;
            if hands.get(handname).level > 1 {
                self.triggered = true;
                hands.level_up(handname, -1);
            }
        }
        if self.is("The Ox") {
            self.triggered = false;
            if handname == most_played {
                self.triggered = true;
                *dollars = 0;
            }
        }
        false
    }

    /// Whether the blind switches a playing card off.
    pub open spec fn debuffs(self, card: Card, pareidolia: bool, smeared: bool) -> bool {
        !self.disabled && {
            ||| (self.proto.debuff matches BossDebuff::Suit(s) && card.suits_any(s, smeared))
            ||| (self.proto.debuff == BossDebuff::Face && card.boss_face(pareidolia))
            ||| (self.named("The Pillar"@) && card.played_this_ante)
            ||| self.named("Verdant Leaf"@)
        }
    }

    pub fn debuff_card(&self, card: &Card, pareidolia: bool, smeared: bool) -> (r: bool)
        ensures
            r == self.debuffs(*card, pareidolia, smeared),
    {
        if self.disabled {
            return false;
        }
        match self.proto.debuff {
            BossDebuff::Suit(s) => {
                if card.is_suit_bypass_debuff(s, smeared) {
                    return true;
                }
            },
            BossDebuff::Face => {
                if card.is_face_from_boss(pareidolia) {
                    return true;
                }
            },
            _ => {},
        }
        if self.is("The Pillar") && card.played_this_ante {
            return true;
        }
        self.is("Verdant Leaf")
    }

    /// Whether the Wheel rolls for a drawn card.
    pub open spec fn rolls_wheel(self) -> bool {
        !self.disabled && self.named("The Wheel"@)
    }

    /// Whether a drawn card stays face down.
    pub open spec fn flips(
        self,
        s: Streams,
        card: Card,
        hands_played_round: i64,
        discards_used_round: i64,
        prob_normal: Double,
        pareidolia: bool,
    ) -> bool {
        !self.disabled && {
            ||| (self.named("The Wheel"@) && s.unit("wheel"@).below(
                prob_normal.over(Double::of(7)),
            ))
            ||| (self.named("The House"@) && hands_played_round == 0 && discards_used_round == 0)
            ||| (self.named("The Mark"@) && card.boss_face(pareidolia))
            ||| (self.named("The Fish"@) && self.prepped)
        }
    }

    pub fn stay_flipped(
        &self,
        rng: &mut RngState,
        card: &Card,
        hands_played_round: i64,
        discards_used_round: i64,
        prob_normal: Double,
        pareidolia: bool,
    ) -> (r: bool)
        ensures
            r == self.flips(
                old(rng)@,
                *card,
                hands_played_round,
                discards_used_round,
                prob_normal,
                pareidolia,
            ),
            final(rng)@ == if self.rolls_wheel() {
                old(rng)@.after("wheel"@)
            } else {
                old(rng)@
            },
    {
        if self.disabled {
            return false;
        }
        if self.is("The Wheel") && rng.random("wheel").lt(prob_normal.div(Double::from_i64(7))) {
            return true;
        }
        if self.is("The House") && hands_played_round == 0 && discards_used_round == 0 {
            return true;
        }
        if self.is("The Mark") && card.is_face_from_boss(pareidolia) {
            return true;
        }
        self.is("The Fish") && self.prepped
    }

    /// The blind once it is disabled: the Wall asks for half, the Violet
    /// Vessel for a third.
    pub open spec fn after_disable(self) -> ActiveBlind {
        let c = if self.named("The Wall"@) {
            self.chips.over(Double::of(2))
        } else {
            self.chips
        };
        ActiveBlind {
            disabled: true,
            chips: if self.named("Violet Vessel"@) {
                c.over(Double::of(3))
            } else {
                c
            },
            ..self
        }
    }

    pub fn disable(&mut self)
        ensures
            *final(self) == old(self).after_disable(),
    {
        self.disabled = true;
        if self.is("The Wall") {
            self.chips = self.chips.div(Double::from_i64(2));
        }
        if self.is("Violet Vessel") {
            self.chips = self.chips.div(Double::from_i64(3));
        }
    }
}

// ---- laws ----------------------------------------------------------------

/// A disabled blind has no effect: it debuffs no card and no hand, flips
/// nothing, halves nothing, and takes neither levels nor money.
pub proof fn law_disabled_blind_does_nothing(
    b: ActiveBlind,
    card: Card,
    s: Streams,
    played: nat,
    ht: HandType,
    hands: HandsTable,
    dollars: i64,
    most_played: HandType,
    p: Double,
    x: bool,
    y: bool,
    i: i64,
    j: i64,
)
    requires
        b.disabled,
    ensures
        !b.debuffs(card, x, y),
        !b.flips(s, card, i, j, p, x),
        !b.halves(),
        b.verdict(played, ht, hands, dollars, most_played) == (HandVerdict {
            blind: b,
            hands,
            dollars,
            debuffed: false,
        }),
{
    reveal(ActiveBlind::verdict);
}

/// A hand that is refused costs neither levels nor money.
pub proof fn law_refused_hand_costs_nothing(
    b: ActiveBlind,
    played: nat,
    ht: HandType,
    hands: HandsTable,
    dollars: i64,
    most_played: HandType,
)
    ensures
        ({
            let v = b.verdict(played, ht, hands, dollars, most_played);
            v.debuffed ==> v.hands == hands && v.dollars == dollars && v.blind.triggered
        }),
{
    reveal(ActiveBlind::verdict);
}

/// The Eye accepts every hand once and refuses it from then on.
pub proof fn law_eye_accepts_each_hand_once(
    b: ActiveBlind,
    played: nat,
    ht: HandType,
    hands: HandsTable,
    dollars: i64,
    most_played: HandType,
)
    requires
        !b.disabled,
        b.named("The Eye"@),
        b.proto.debuff == BossDebuff::Nothing,
    ensures
        ({
            let v = b.verdict(played, ht, hands, dollars, most_played);
            v.blind.eye_hands.at(ht) && v.blind.verdict(
                played,
                ht,
                v.hands,
                v.dollars,
                most_played,
            ).debuffed
        }),
{
    reveal(ActiveBlind::verdict);
    reveal(PerHand::at);
    reveal(PerHand::with);
}

} // verus!
