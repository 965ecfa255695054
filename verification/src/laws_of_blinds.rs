//! What the blinds ask for and what the bosses do.
use crate::blinds;
use crate::blinds::{boss, ActiveBlind, BlindProto};
use crate::cards::{Card, HandType, Suit};
use crate::double::Double;
use crate::exact;
use crate::key_marks::lemma_blind_marks;
use crate::perhand::PerHand;
use crate::rng::Streams;
use crate::run::RunModel;
use crate::scoring::HandsTable;
use vstd::prelude::*;

verus! {

// ---- what is asked for ---------------------------------------------------

/// The chips by which the blinds of an ante are sized.
pub proof fn law_antes_grow()
    ensures
        blinds::base_amount(1) == 300,
        blinds::base_amount(2) == 800,
        blinds::base_amount(3) == 2000,
        blinds::base_amount(4) == 5000,
        blinds::base_amount(5) == 11000,
        blinds::base_amount(6) == 20000,
        blinds::base_amount(7) == 35000,
        blinds::base_amount(8) == 50000,
        forall|a: i64| a < 1 ==> #[trigger] blinds::base_amount(a) == 100,
{
}

/// Whether a boss has a name.
pub open spec fn is_named(b: BlindProto, name: Seq<char>) -> bool {
    b.name@ == name
}

/// The Small Blind asks for the chips of the ante and pays 3 dollars, the Big
/// Blind for one and a half times as many and pays 4.
pub proof fn law_small_and_big_blinds()
    ensures
        blinds::small_blind().mult_x2 == 2,
        blinds::small_blind().dollars == 3,
        !blinds::small_blind().is_boss,
        blinds::big_blind().mult_x2 == 3,
        blinds::big_blind().dollars == 4,
        !blinds::big_blind().is_boss,
{
}

/// A boss asks for twice the chips of the ante and pays 5 dollars; but the Wall
/// asks for four times as many, the Needle for as many, and the Violet Vessel for
/// six times as many; and the five bosses of the last ante pay 8.
#[verifier::rlimit(40)]
pub proof fn law_what_bosses_ask_for(i: int)
    requires
        0 <= i < 28,
    ensures
        ({
            let b = boss(i);
            let last = is_named(b, "Amber Acorn"@) || is_named(b, "Cerulean Bell"@) || is_named(
                b,
                "Crimson Heart"@,
            ) || is_named(b, "Verdant Leaf"@) || is_named(b, "Violet Vessel"@);
            &&& b.is_boss
            &&& b.showdown == last
            &&& b.dollars == (if last {
                8i64
            } else {
                5
            })
            &&& b.mult_x2 == 2 * (if is_named(b, "The Wall"@) {
                4
            } else if is_named(b, "The Needle"@) {
                1
            } else if is_named(b, "Violet Vessel"@) {
                6
            } else {
                2int
            })
        }),
{
    reveal(boss);
    lemma_blind_marks();
}

/// From which ante on each boss may come.
#[verifier::rlimit(40)]
pub proof fn law_when_bosses_come(i: int)
    requires
        0 <= i < 28,
        !boss(i).showdown,
    ensures
        ({
            let b = boss(i);
            let called = |name: Seq<char>| b.name@ == name;
            b.boss_min == if called("The Arm"@) || called("The Fish"@) || called("The Flint"@) || called(
                "The House"@,
            ) || called("The Mark"@) || called("The Mouth"@) || called("The Needle"@) || called("The Wall"@) || called(
                "The Water"@,
            ) || called("The Wheel"@) {
                2i64
            } else if called("The Eye"@) || called("The Tooth"@) {
                3
            } else if called("The Plant"@) {
                4
            } else if called("The Serpent"@) {
                5
            } else if called("The Ox"@) {
                6
            } else {
                1
            }
        }),
{
    reveal(boss);
    lemma_blind_marks();
}

/// What a blind asks for in whole numbers: as many half amounts as it says.
pub proof fn law_blinds_ask_for_multiples_of_the_amount(proto: BlindProto, amount: nat)
    requires
        0 < proto.mult_x2 <= 100,
        0 < amount < 0x100_0000_0000,
        (amount * proto.mult_x2) % 2 == 0,
    ensures
        ActiveBlind::fresh(proto, Double::of(amount as int)).chips == Double::of(
            (amount * proto.mult_x2) / 2,
        ),
        !ActiveBlind::fresh(proto, Double::of(amount as int)).disabled,
        ActiveBlind::fresh(proto, Double::of(amount as int)).proto == proto,
{
    let k = proto.mult_x2 as nat;
    let n = amount;
    exact::lemma_halved(k);
    let half = Double::of(k as int).over(Double::of(2));
    exact::lemma_whole(n);
    assert(n * k < 0x10_0000_0000_0000 && n * k > 0) by (nonlinear_arith)
        requires
            0 < n < 0x100_0000_0000,
            0 < k <= 100,
    ;
    exact::lemma_product_of_halves(Double::of(n as int), n, half, k);
    let w = (n * k) / 2;
    exact::lemma_whole_product(w, 1);
}

// ---- cards that are debuffed ---------------------------------------------

/// The bosses that debuff cards: the Club, Goad, Head and Window those of a suit,
/// the Plant the faces, the Pillar those played this ante, the Verdant Leaf all.
/// No other boss debuffs any.
#[verifier::rlimit(40)]
pub proof fn law_bosses_that_debuff_cards(b: ActiveBlind, i: int, c: Card, pareidolia: bool, smeared: bool)
    requires
        0 <= i < 28,
        b.proto == boss(i),
        !b.disabled,
    ensures
        ({
            let called = |name: Seq<char>| b.proto.name@ == name;
            b.debuffs(c, pareidolia, smeared) == if called("The Club"@) {
                c.suits_any(Suit::Clubs, smeared)
            } else if called("The Goad"@) {
                c.suits_any(Suit::Spades, smeared)
            } else if called("The Head"@) {
                c.suits_any(Suit::Hearts, smeared)
            } else if called("The Window"@) {
                c.suits_any(Suit::Diamonds, smeared)
            } else if called("The Plant"@) {
                pareidolia || (c.enhancement != crate::cards::Enhancement::Stone && 11 <= c.rank.0
                    <= 13)
            } else if called("The Pillar"@) {
                c.played_this_ante
            } else {
                called("Verdant Leaf"@)
            }
        }),
{
    reveal(boss);
    lemma_blind_marks();
}

// ---- hands that are refused ----------------------------------------------

/// What a boss makes of a hand: the Psychic refuses fewer than five cards, the Eye a
/// hand that was played before, the Mouth another hand than the first; the Arm
/// takes a level, the Ox all money for the hand played most.
#[verifier::rlimit(40)]
pub proof fn law_bosses_that_judge_hands(
    b: ActiveBlind,
    i: int,
    played: nat,
    ht: HandType,
    hands: HandsTable,
    dollars: i64,
    most: HandType,
)
    requires
        0 <= i < 28,
        b.proto == boss(i),
        !b.disabled,
        hands.row(ht).level >= 1,
    ensures
        ({
            let called = |name: Seq<char>| b.proto.name@ == name;
            let v = b.verdict(played, ht, hands, dollars, most);
            &&& v.debuffed == if called("The Psychic"@) {
                played < 5
            } else if called("The Eye"@) {
                b.eye_hands.at(ht)
            } else if called("The Mouth"@) {
                b.only_hand is Some && b.only_hand != Some(ht)
            } else {
                false
            }
            &&& called("The Mouth"@) && b.only_hand is None ==> v.blind.only_hand == Some(ht)
            &&& called("The Eye"@) && !v.debuffed ==> v.blind.eye_hands.at(ht)
            &&& called("The Arm"@) ==> v.hands.row(ht).level == (if hands.row(ht).level > 1 {
                hands.row(ht).level - 1
            } else {
                1
            })
            &&& !called("The Arm"@) ==> v.hands == hands
            &&& v.dollars == (if called("The Ox"@) && ht == most {
                0
            } else {
                dollars
            })
        }),
{
    reveal(boss);
    reveal(ActiveBlind::verdict);
    reveal(PerHand::at);
    reveal(PerHand::with);
    lemma_blind_marks();
}

/// The Flint halves the chips and the mult of the hand, no other boss does.
pub proof fn law_the_flint_halves(b: ActiveBlind, i: int)
    requires
        0 <= i < 28,
        b.proto == boss(i),
    ensures
        b.halves() == (!b.disabled && b.proto.name@ == "The Flint"@),
{
}

/// The bosses that turn cards face down: the House the first hand, the Mark the
/// faces, the Fish what is drawn after a hand, the Wheel one card in seven.
#[verifier::rlimit(40)]
pub proof fn law_bosses_that_turn_cards_down(
    b: ActiveBlind,
    i: int,
    s: Streams,
    c: Card,
    hands: i64,
    discards: i64,
    prob: Double,
    pareidolia: bool,
)
    requires
        0 <= i < 28,
        b.proto == boss(i),
        !b.disabled,
    ensures
        ({
            let called = |name: Seq<char>| b.proto.name@ == name;
            b.flips(s, c, hands, discards, prob, pareidolia) == if called("The Wheel"@) {
                s.unit("wheel"@).below(prob.over(Double::of(7)))
            } else if called("The House"@) {
                hands == 0 && discards == 0
            } else if called("The Mark"@) {
                pareidolia || (c.enhancement != crate::cards::Enhancement::Stone && 11 <= c.rank.0
                    <= 13)
            } else {
                called("The Fish"@) && b.prepped
            }
        }),
{
    reveal(boss);
    lemma_blind_marks();
}

// ---- what is taken -------------------------------------------------------

/// The Water takes the discards, the Needle all hands but one, the Manacle one card
/// from the hand size; no other boss takes any of these.
#[verifier::rlimit(40)]
pub proof fn law_bosses_that_take(m: RunModel, b: ActiveBlind, i: int)
    requires
        0 <= i < 28,
        b.proto == boss(i),
    ensures
        ({
            let called = |name: Seq<char>| b.proto.name@ == name;
            let r = m.blind_taken(b).1.round;
            &&& r.discards_left == (if called("The Water"@) {
                0
            } else {
                m.round.discards_left
            })
            &&& r.hands_left == (if called("The Needle"@) {
                1
            } else {
                m.round.hands_left
            })
            &&& r.hand_size == (if called("The Manacle"@) {
                m.round.hand_size.wrapping_sub(1)
            } else {
                m.round.hand_size
            })
        }),
{
    reveal(RunModel::blind_taken);
    reveal(RunModel::acorn_mixed);
    reveal(boss);
    lemma_blind_marks();
}

/// The Tooth takes a dollar for every card played.
pub proof fn law_the_tooth_takes_money(m: RunModel, b: ActiveBlind, count: nat)
    requires
        m.round.active_blind == Some(b),
        !b.disabled,
        b.proto.name@ == "The Tooth"@,
        count <= 5,
        i64::MIN + 5 <= m.purse.dollars,
    ensures
        m.pressed(count).purse.dollars == m.purse.dollars - count,
{
    reveal(RunModel::pressed);
    lemma_blind_marks();
}

// ---- blinds that are disabled --------------------------------------------

/// A disabled boss no longer does anything: the cards are face up and not debuffed;
/// the Wall asks for half as much, the Violet Vessel for a third; the Water gives the
/// discards back, the Needle the hands, and the Manacle the place in hand.
#[verifier::rlimit(40)]
pub proof fn law_disabling_undoes_the_boss(m: RunModel, b: ActiveBlind, i: int)
    requires
        0 <= i < 28,
        b.proto == boss(i),
        m.round.active_blind == Some(b),
        !b.disabled,
        0 <= m.round.hands_left < 1000,
        0 <= m.round.discards_left < 1000,
        0 <= m.round.hand_size < 1000,
        0 <= b.discards_sub < 1000,
        0 <= b.hands_sub < 1000,
    ensures
        ({
            let called = |name: Seq<char>| b.proto.name@ == name;
            let now = m.hushed();
            &&& now.round.active_blind is Some && now.round.active_blind->0.disabled
            &&& now.round.active_blind->0.chips == (if called("The Wall"@) {
                b.chips.over(Double::of(2))
            } else if called("Violet Vessel"@) {
                b.chips.over(Double::of(3))
            } else {
                b.chips
            })
            &&& now.round.discards_left == m.round.discards_left + (if called("The Water"@) {
                b.discards_sub as int
            } else {
                0
            })
            &&& now.round.hands_left == m.round.hands_left + (if called("The Needle"@) {
                b.hands_sub as int
            } else {
                0
            })
            &&& now.round.hand_size == m.round.hand_size + (if called("The Manacle"@) {
                1int
            } else {
                0
            })
            &&& forall|k: int| 0 <= k < now.hand.len() ==> !(#[trigger] now.hand[k]).debuff
            &&& forall|k: int| 0 <= k < now.deck.len() ==> !(#[trigger] now.deck[k]).debuff
            &&& !called("The Manacle"@) ==> forall|k: int|
                0 <= k < now.hand.len() ==> !(#[trigger] now.hand[k]).face_down
        }),
{
    reveal(RunModel::quieted);
    reveal(boss);
    lemma_blind_marks();
}

/// What the Water and the Needle take they give back when they are disabled at
/// once.
pub proof fn law_what_is_taken_comes_back(m: RunModel, b: ActiveBlind)
    requires
        !b.disabled,
        1 <= m.round.hands_left < 1000,
        0 <= m.round.discards_left < 1000,
        b.proto.name@ == "The Water"@ || b.proto.name@ == "The Needle"@,
    ensures
        ({
            let (taken, n) = m.blind_taken(b);
            let set = RunModel {
                round: crate::run::Round { active_blind: Some(taken), ..n.round },
                ..n
            };
            set.hushed().round.hands_left == m.round.hands_left && set.hushed().round.discards_left
                == m.round.discards_left
        }),
{
    reveal(RunModel::quieted);
    reveal(RunModel::blind_taken);
    lemma_blind_marks();
}

/// The Serpent has three cards drawn after every hand and every discard, whatever the
/// size of the hand.
pub proof fn law_the_serpent_draws_three(m: RunModel, b: ActiveBlind)
    requires
        m.round.active_blind == Some(b),
        !b.disabled,
        b.proto.name@ == "The Serpent"@,
        m.round.hands_played > 0 || m.round.discards_used > 0,
    ensures
        m.draw_count() == (if m.deck.len() < 3 {
            m.deck.len()
        } else {
            3
        }),
{
}

} // verus!
