//! What each joker does.
use crate::cards::{Card, Edition, Enhancement, HandType, Suit};
use crate::double::Double;
use crate::items::{ConsumableSet, JokerId};
use crate::jokers::effects;
use crate::exact::{lemma_whole_order, lemma_whole_product, lemma_whole_sum};
use crate::jokers::engine::{
    baseball, before_from, before_one, live_x, mimes, observed, others_worth, plays_again,
    standing, stencils, worth, Discarding, Ending, Engine, Looking, Setting, Tally,
};
use crate::jokers::{owns, resolved, resolved_from, EngineHooks, JokerState, OutEvent};
use crate::rng::Streams;
use crate::scoring::{
    no_effect, BeforeOutcome, CardEffect, HandView, HandsTable, JokerHooks, MainOutcome,
};
use crate::run::RunModel;
use crate::shop::OwnedJoker;
use vstd::prelude::*;

verus! {

// ---- rows of jokers ------------------------------------------------------

/// Whether a joker copies another.
pub open spec fn copies(id: JokerId) -> bool {
    id == JokerId::Blueprint || id == JokerId::Brainstorm
}

/// A joker acts itself unless it is debuffed; a Blueprint acts as the joker to its
/// right, and a Brainstorm as the leftmost joker.
pub proof fn law_who_acts(jokers: Seq<OwnedJoker>, i: usize)
    requires
        i < jokers.len() <= usize::MAX,
    ensures
        jokers[i as int].debuffed ==> resolved(jokers, i) is None,
        !jokers[i as int].debuffed && !copies(jokers[i as int].id) ==> resolved(jokers, i) == Some(
            (i, false),
        ),
        !jokers[i as int].debuffed && jokers[i as int].id == JokerId::Blueprint && i + 1
            < jokers.len() && !copies(jokers[i + 1].id) ==> resolved(jokers, i) == (
        if jokers[i + 1].debuffed {
            None
        } else {
            Some(((i + 1) as usize, true))
        }),
        !jokers[i as int].debuffed && jokers[i as int].id == JokerId::Blueprint && i + 1
            == jokers.len() ==> resolved(jokers, i) is None,
        !jokers[i as int].debuffed && jokers[i as int].id == JokerId::Brainstorm && i > 0
            && !copies(jokers[0].id) ==> resolved(jokers, i) == (if jokers[0].debuffed {
            None
        } else {
            Some((0usize, true))
        }),
        !jokers[i as int].debuffed && jokers[i as int].id == JokerId::Brainstorm && i == 0
            ==> resolved(jokers, i) is None,
{
    reveal_with_fuel(resolved_from, 3);
}

/// Whether a row is one joker with another beside it that does nothing by itself:
/// the plain Joker, the Smeared Joker or Pareidolia.
pub open spec fn beside(jokers: Seq<OwnedJoker>, other: JokerId) -> bool {
    &&& jokers.len() == 2
    &&& !jokers[0].debuffed && !jokers[1].debuffed
    &&& !copies(jokers[0].id)
    &&& jokers[0].id != JokerId::Smeared && jokers[0].id != JokerId::Pareidolia
    &&& jokers[1].id == other
    &&& other == JokerId::Joker || other == JokerId::Smeared || other == JokerId::Pareidolia
}

proof fn lemma_beside(jokers: Seq<OwnedJoker>, other: JokerId)
    requires
        beside(jokers, other),
    ensures
        resolved(jokers, 0) == Some((0usize, false)),
        resolved(jokers, 1) == Some((1usize, false)),
        owns(jokers, JokerId::Smeared) == (other == JokerId::Smeared),
        owns(jokers, JokerId::Pareidolia) == (other == JokerId::Pareidolia),
{
    law_who_acts(jokers, 0);
    law_who_acts(jokers, 1);
    assert(jokers[1].id == other);
}

// ---- effects of cards ----------------------------------------------------

pub open spec fn chips(n: int) -> CardEffect {
    CardEffect { chips: Double::of(n), ..no_effect() }
}

pub open spec fn mult(n: int) -> CardEffect {
    CardEffect { mult: Double::of(n), ..no_effect() }
}

pub open spec fn chips_and_mult(c: int, m: int) -> CardEffect {
    CardEffect { chips: Double::of(c), mult: Double::of(m), ..no_effect() }
}

pub open spec fn times(x: Double) -> CardEffect {
    CardEffect { x_mult: x, ..no_effect() }
}

pub open spec fn dollars(n: i64) -> CardEffect {
    CardEffect { dollars: n, ..no_effect() }
}

/// An effect where something holds, and none where it does not.
pub open spec fn given(holds: bool, e: CardEffect) -> Seq<CardEffect> {
    if holds {
        seq![e]
    } else {
        seq![]
    }
}

/// The rank of a card: 2 to 10, 11 to 13 for the faces, 14 for the Ace; 0 for a
/// Stone card.
pub open spec fn rank(c: Card) -> int {
    if c.enhancement == Enhancement::Stone {
        0
    } else {
        c.rank.0 as int
    }
}

/// What the jokers give for a scoring card.
pub open spec fn on_scoring(m: Engine, v: HandView, c: Card, lucky: bool, s: Streams) -> Seq<
    CardEffect,
> {
    EngineHooks::on_play(m, v, c, lucky, s).0
}

pub proof fn lemma_on_scoring(m: Engine, other: JokerId, v: HandView, c: Card, lucky: bool, s: Streams)
    requires
        beside(m.jokers, other),
    ensures
        ({
            let step = effects::play_step(
                m.jokers[0],
                false,
                v,
                c,
                lucky,
                other == JokerId::Pareidolia,
                other == JokerId::Smeared,
                m.env,
                m.out,
                s,
            );
            let r = EngineHooks::on_play(m, v, c, lucky, s);
            &&& r.0 == (match step.eff {
                Some(x) => seq![x],
                None => seq![],
            })
            &&& r.1.jokers[0] == step.j
            &&& r.1.out == step.out
            &&& r.2 == step.s
        }),
{
    lemma_beside(m.jokers, other);
    reveal(effects::play_step);
    let p = other == JokerId::Pareidolia;
    let sm = other == JokerId::Smeared;
    let none: Seq<CardEffect> = seq![];
    let l = Looking { e: m, effs: none, s };
    let l1 = l.play_one(v, c, lucky, p, sm, 0);
    assert(l.play_from(v, c, lucky, p, sm, 0, 2) == l1.play_from(v, c, lucky, p, sm, 1, 2));
    let step = effects::play_step(m.jokers[0], false, v, c, lucky, p, sm, m.env, m.out, s);
    assert(step.j.id == m.jokers[0].id && step.j.debuffed == m.jokers[0].debuffed);
    assert(l1.e.jokers =~= seq![step.j, m.jokers[1]]);
    lemma_beside(l1.e.jokers, other);
    let l2 = l1.play_one(v, c, lucky, p, sm, 1);
    assert(l1.play_from(v, c, lucky, p, sm, 1, 2) == l2.play_from(v, c, lucky, p, sm, 2, 2));
    assert(l2.effs == l1.effs);
    assert(l2.e.jokers[0] == step.j);
    match step.eff {
        Some(x) => {
            assert(l1.effs =~= seq![x]);
        },
        None => {},
    }
}

/// The jokers that look at the rank of a scoring card.
pub proof fn law_jokers_for_ranks(m: Engine, other: JokerId, v: HandView, c: Card, lucky: bool, s: Streams)
    requires
        beside(m.jokers, other),
        2 <= c.rank.0 <= 14,
    ensures
        ({
            let is = |id: JokerId| m.jokers[0].id == id;
            let r = rank(c);
            let gets = on_scoring(m, v, c, lucky, s);
            &&& is(JokerId::EvenSteven) ==> gets == given(
                r == 2 || r == 4 || r == 6 || r == 8 || r == 10,
                mult(4),
            )
            &&& is(JokerId::OddTodd) ==> gets == given(
                r == 3 || r == 5 || r == 7 || r == 9 || r == 14,
                chips(31),
            )
            &&& is(JokerId::Fibonacci) ==> gets == given(
                r == 2 || r == 3 || r == 5 || r == 8 || r == 14,
                mult(8),
            )
            &&& is(JokerId::Scholar) ==> gets == given(r == 14, chips_and_mult(20, 4))
            &&& is(JokerId::WalkieTalkie) ==> gets == given(
                r == 10 || r == 4,
                chips_and_mult(10, 4),
            )
            &&& is(JokerId::Triboulet) ==> gets == given(
                r == 12 || r == 13,
                times(Double::of(2)),
            )
        }),
{
    lemma_on_scoring(m, other, v, c, lucky, s);
    reveal(effects::play_step);
}

/// The jokers that look for face cards, which under Pareidolia all cards are;
/// debuffed cards are none.
pub proof fn law_jokers_for_faces(m: Engine, other: JokerId, v: HandView, c: Card, lucky: bool, s: Streams)
    requires
        beside(m.jokers, other),
    ensures
        ({
            let is = |id: JokerId| m.jokers[0].id == id;
            let r = rank(c);
            let face = !c.debuff && (r == 11 || r == 12 || r == 13 || other
                == JokerId::Pareidolia);
            let gets = on_scoring(m, v, c, lucky, s);
            &&& is(JokerId::ScaryFace) ==> gets == given(face, chips(30))
            &&& is(JokerId::Smiley) ==> gets == given(face, mult(5))
            &&& is(JokerId::Business) ==> gets == given(
                face && s.unit("business"@).below(m.env.prob_normal.over(Double::of(2))),
                dollars(2),
            )
        }),
{
    lemma_on_scoring(m, other, v, c, lucky, s);
    reveal(effects::play_step);
}

/// Whether a card has a suit: its own, or under the Smeared Joker also the other
/// one of its colour; a Wild card has all, a Stone card and a debuffed card none.
pub open spec fn has_suit(c: Card, s: Suit, smeared: bool) -> bool {
    let red = |x: Suit| x == Suit::Hearts || x == Suit::Diamonds;
    !c.debuff && c.enhancement != Enhancement::Stone && (c.enhancement == Enhancement::Wild
        || c.suit == s || (smeared && red(c.suit) == red(s)))
}

/// The jokers that look at the suit of a scoring card.
#[verifier::rlimit(40)]
pub proof fn law_jokers_for_suits(m: Engine, other: JokerId, v: HandView, c: Card, lucky: bool, s: Streams)
    requires
        beside(m.jokers, other),
        2 <= c.rank.0 <= 14,
    ensures
        ({
            let is = |id: JokerId| m.jokers[0].id == id;
            let suit = |x: Suit| has_suit(c, x, other == JokerId::Smeared);
            let gets = on_scoring(m, v, c, lucky, s);
            &&& is(JokerId::GreedyJoker) ==> gets == given(suit(Suit::Diamonds), mult(3))
            &&& is(JokerId::LustyJoker) ==> gets == given(suit(Suit::Hearts), mult(3))
            &&& is(JokerId::WrathfulJoker) ==> gets == given(suit(Suit::Spades), mult(3))
            &&& is(JokerId::GluttenousJoker) ==> gets == given(suit(Suit::Clubs), mult(3))
            &&& is(JokerId::RoughGem) ==> gets == given(suit(Suit::Diamonds), dollars(1))
            &&& is(JokerId::OnyxAgate) ==> gets == given(suit(Suit::Clubs), mult(7))
            &&& is(JokerId::Arrowhead) ==> gets == given(suit(Suit::Spades), chips(50))
            &&& is(JokerId::Bloodstone) ==> gets == given(
                suit(Suit::Hearts) && s.unit("bloodstone"@).below(
                    m.env.prob_normal.over(Double::of(2)),
                ),
                times(Double::frac(15, 10)),
            )
            &&& is(JokerId::Ancient) && m.env.ancient_suit is Some ==> gets == given(
                suit(m.env.ancient_suit->0),
                times(Double::frac(15, 10)),
            )
            &&& is(JokerId::Idol) ==> gets == given(
                suit(m.env.idol_card.1) && rank(c) == m.env.idol_card.0 as int && rank(c) != 0,
                times(Double::of(2)),
            )
        }),
{
    lemma_on_scoring(m, other, v, c, lucky, s);
    reveal(effects::play_step);
}

/// The jokers that grow with scoring cards, or give the card something.
pub proof fn law_jokers_that_grow_on_scoring(
    m: Engine,
    other: JokerId,
    v: HandView,
    c: Card,
    lucky: bool,
    s: Streams,
)
    requires
        beside(m.jokers, other),
    ensures
        ({
            let is = |id: JokerId| m.jokers[0].id == id;
            let gets = on_scoring(m, v, c, lucky, s);
            let was = m.jokers[0].state;
            let now = EngineHooks::on_play(m, v, c, lucky, s).1.jokers[0].state;
            &&& is(JokerId::Hiker) ==> gets == seq![CardEffect { perma_bonus: 5, ..no_effect() }]
            &&& is(JokerId::Ticket) ==> gets == given(
                c.enhancement == Enhancement::Gold,
                dollars(4),
            )
            &&& is(JokerId::LuckyCat) ==> now.x_mult == (if lucky {
                was.x_mult.plus(Double::frac(25, 100))
            } else {
                was.x_mult
            })
            &&& is(JokerId::Wee) ==> now.chips == (if rank(c) == 2 {
                was.chips.plus(Double::of(8))
            } else {
                was.chips
            })
        }),
{
    lemma_on_scoring(m, other, v, c, lucky, s);
    reveal(effects::play_step);
}

/// As many Even Stevens as there are each give their mult: every joker of a row
/// looks at the card.
pub proof fn law_every_joker_looks_at_the_card(
    m: Engine,
    v: HandView,
    c: Card,
    lucky: bool,
    s: Streams,
)
    requires
        m.jokers.len() <= usize::MAX,
        forall|i: int|
            0 <= i < m.jokers.len() ==> (#[trigger] m.jokers[i]).id == JokerId::EvenSteven
                && !m.jokers[i].debuffed,
        rank(c) == 2 || rank(c) == 4 || rank(c) == 6 || rank(c) == 8 || rank(c) == 10,
    ensures
        on_scoring(m, v, c, lucky, s) == Seq::new(m.jokers.len(), |i: int| mult(4)),
{
    let none: Seq<CardEffect> = seq![];
    lemma_stevens(
        Looking { e: m, effs: none, s },
        v,
        c,
        lucky,
        owns(m.jokers, JokerId::Pareidolia),
        owns(m.jokers, JokerId::Smeared),
        0,
        m.jokers.len(),
    );
    assert(none + Seq::new(m.jokers.len(), |i: int| mult(4)) =~= Seq::new(
        m.jokers.len(),
        |i: int| mult(4),
    ));
}

proof fn lemma_stevens(
    l: Looking,
    v: HandView,
    c: Card,
    lucky: bool,
    p: bool,
    sm: bool,
    i: nat,
    n: nat,
)
    requires
        i <= n == l.e.jokers.len() <= usize::MAX,
        forall|k: int|
            0 <= k < l.e.jokers.len() ==> (#[trigger] l.e.jokers[k]).id == JokerId::EvenSteven
                && !l.e.jokers[k].debuffed,
        rank(c) == 2 || rank(c) == 4 || rank(c) == 6 || rank(c) == 8 || rank(c) == 10,
    ensures
        l.play_from(v, c, lucky, p, sm, i, n).effs == l.effs + Seq::new(
            (n - i) as nat,
            |k: int| mult(4),
        ),
    decreases n - i,
{
    reveal(effects::play_step);
    if i < n {
        law_who_acts(l.e.jokers, i as usize);
        let l1 = l.play_one(v, c, lucky, p, sm, i);
        assert(l.e.jokers[i as int].id == JokerId::EvenSteven);
        assert(l1.e.jokers =~= l.e.jokers);
        assert(l1.effs == l.effs.push(mult(4)));
        lemma_stevens(l1, v, c, lucky, p, sm, i + 1, n);
        assert(l.effs.push(mult(4)) + Seq::new((n - i - 1) as nat, |k: int| mult(4)) =~= l.effs
            + Seq::new((n - i) as nat, |k: int| mult(4)));
    } else {
        assert(l.effs + Seq::new(0, |k: int| mult(4)) =~= l.effs);
    }
}

/// A Photograph doubles the mult for the first face card that scores.
pub proof fn law_a_photograph_is_of_the_first_face(
    m: Engine,
    other: JokerId,
    v: HandView,
    c: Card,
    lucky: bool,
    s: Streams,
    k: int,
)
    requires
        beside(m.jokers, other),
        m.jokers[0].id == JokerId::Photograph,
        other != JokerId::Pareidolia,
        v.valid(),
        0 <= k < v.scoring.len(),
        c == v.full_hand[v.scoring[k] as int],
        forall|a: int, b: int|
            0 <= a < v.full_hand.len() && 0 <= b < v.full_hand.len() && a != b
                ==> (#[trigger] v.full_hand[a]).sort_id != (#[trigger] v.full_hand[b]).sort_id,
        forall|a: int, b: int|
            0 <= a < v.scoring.len() && 0 <= b < v.scoring.len() && a != b
                ==> #[trigger] v.scoring[a] != #[trigger] v.scoring[b],
    ensures
        on_scoring(m, v, c, lucky, s) == given(
            is_plain_face(c) && forall|i: int|
                0 <= i < k ==> !is_plain_face(v.full_hand[(#[trigger] v.scoring[i]) as int]),
            times(Double::of(2)),
        ),
{
    lemma_on_scoring(m, other, v, c, lucky, s);
    reveal(effects::play_step);
    lemma_first_face(v, 0, k);
}

/// Whether a card is a Jack, Queen or King and not debuffed.
pub open spec fn is_plain_face(c: Card) -> bool {
    !c.debuff && (rank(c) == 11 || rank(c) == 12 || rank(c) == 13)
}

proof fn lemma_first_face(v: HandView, from: nat, k: int)
    requires
        v.valid(),
        from <= k < v.scoring.len(),
        forall|a: int, b: int|
            0 <= a < v.full_hand.len() && 0 <= b < v.full_hand.len() && a != b
                ==> (#[trigger] v.full_hand[a]).sort_id != (#[trigger] v.full_hand[b]).sort_id,
        forall|a: int, b: int|
            0 <= a < v.scoring.len() && 0 <= b < v.scoring.len() && a != b
                ==> #[trigger] v.scoring[a] != #[trigger] v.scoring[b],
    ensures
        ({
            let c = v.full_hand[v.scoring[k] as int];
            effects::first_face_from(v, false, from) == Some(c.sort_id) <==> is_plain_face(c)
                && forall|i: int|
                from <= i < k ==> !is_plain_face(v.full_hand[(#[trigger] v.scoring[i]) as int])
        }),
    decreases v.scoring.len() - from,
{
    let c = v.full_hand[v.scoring[k] as int];
    let here = v.full_hand[v.scoring[from as int] as int];
    assert(v.scoring[k] < v.full_hand.len() && v.scoring[from as int] < v.full_hand.len());
    if is_plain_face(here) {
        if from < k {
            assert(v.scoring[from as int] != v.scoring[k]);
        }
    } else if from < k {
        lemma_first_face(v, from + 1, k);
    } else {
        lemma_no_face_of(v, from + 1, k);
    }
}

proof fn lemma_no_face_of(v: HandView, from: nat, k: int)
    requires
        v.valid(),
        0 <= k < from <= v.scoring.len(),
        forall|a: int, b: int|
            0 <= a < v.full_hand.len() && 0 <= b < v.full_hand.len() && a != b
                ==> (#[trigger] v.full_hand[a]).sort_id != (#[trigger] v.full_hand[b]).sort_id,
        forall|a: int, b: int|
            0 <= a < v.scoring.len() && 0 <= b < v.scoring.len() && a != b
                ==> #[trigger] v.scoring[a] != #[trigger] v.scoring[b],
    ensures
        effects::first_face_from(v, false, from) != Some(
            v.full_hand[v.scoring[k] as int].sort_id,
        ),
    decreases v.scoring.len() - from,
{
    if from < v.scoring.len() {
        assert(v.scoring[from as int] != v.scoring[k]);
        assert(v.scoring[k] < v.full_hand.len() && v.scoring[from as int] < v.full_hand.len());
        lemma_no_face_of(v, from + 1, k);
    }
}

// ---- cards that are looked at again --------------------------------------

/// The jokers that have scoring cards looked at again, and how often.
pub proof fn law_jokers_that_repeat_cards(m: Engine, other: JokerId, v: HandView, c: Card, s: Streams)
    requires
        beside(m.jokers, other),
        2 <= c.rank.0 <= 14,
        v.scoring.len() > 0,
    ensures
        ({
            let is = |id: JokerId| m.jokers[0].id == id;
            let r = rank(c);
            let face = !c.debuff && (r == 11 || r == 12 || r == 13 || other
                == JokerId::Pareidolia);
            let more = EngineHooks::repetitions(m, v, c, s).0;
            let times = |holds: bool, n: u32| if holds { more == n } else { more == 0 };
            &&& is(JokerId::SockAndBuskin) ==> times(face, 1)
            &&& is(JokerId::HangingChad) ==> times(
                v.full_hand[v.scoring[0] as int].sort_id == c.sort_id,
                2,
            )
            &&& is(JokerId::Dusk) ==> times(m.env.hands_left == 0, 1)
            &&& is(JokerId::Selzer) ==> times(true, 1)
            &&& is(JokerId::Hack) ==> times(r == 2 || r == 3 || r == 4 || r == 5, 1)
            &&& is(JokerId::EvenSteven) ==> times(false, 0)
            &&& is(JokerId::Mime) ==> times(false, 0)
        }),
{
    lemma_beside(m.jokers, other);
    reveal_with_fuel(plays_again, 3);
}

/// A Mime has held cards with an effect looked at once more, and no others.
pub proof fn law_a_mime_repeats_held_cards(m: Engine, other: JokerId, v: HandView, c: Card, has: bool, s: Streams)
    requires
        beside(m.jokers, other),
    ensures
        EngineHooks::held_repetitions(m, v, c, has, s).0 == (if has && m.jokers[0].id
            == JokerId::Mime {
            1u32
        } else {
            0
        }),
        EngineHooks::round_repetitions(m, c, has).0 == (if has && m.jokers[0].id
            == JokerId::Mime {
            1u32
        } else {
            0
        }),
{
    lemma_beside(m.jokers, other);
    reveal_with_fuel(mimes, 3);
}

// ---- held cards ----------------------------------------------------------

proof fn lemma_on_hold(m: Engine, other: JokerId, v: HandView, c: Card, s: Streams)
    requires
        beside(m.jokers, other),
    ensures
        ({
            let step = effects::held_step(
                m.jokers[0],
                v,
                c,
                other == JokerId::Pareidolia,
                m.env,
                m.out,
                s,
            );
            EngineHooks::on_hold(m, v, c, s).0 == (match step.eff {
                Some(x) => seq![x],
                None => seq![],
            })
        }),
{
    lemma_beside(m.jokers, other);
    reveal(effects::held_step);
    let p = other == JokerId::Pareidolia;
    let none: Seq<CardEffect> = seq![];
    let l = Looking { e: m, effs: none, s };
    let l1 = l.held_one(v, c, p, 0);
    let step = effects::held_step(m.jokers[0], v, c, p, m.env, m.out, s);
    assert(step.j == m.jokers[0]);
    assert(l1.e.jokers =~= m.jokers);
    assert(l.held_from(v, c, p, 0, 2) == l1.held_from(v, c, p, 1, 2));
    let l2 = l1.held_one(v, c, p, 1);
    assert(l1.held_from(v, c, p, 1, 2) == l2.held_from(v, c, p, 2, 2));
    assert(l2.effs == l1.effs);
    match step.eff {
        Some(x) => {
            assert(l1.effs =~= seq![x]);
        },
        None => {},
    }
}

/// The jokers that look at held cards: Queens give 13 mult to Shoot the Moon,
/// Kings one and a half times the mult to the Baron, faces now and then a dollar to
/// Reserved Parking. A debuffed card is looked at in vain.
pub proof fn law_jokers_for_held_cards(m: Engine, other: JokerId, v: HandView, c: Card, s: Streams)
    requires
        beside(m.jokers, other),
    ensures
        ({
            let is = |id: JokerId| m.jokers[0].id == id;
            let r = rank(c);
            let face = !c.debuff && (r == 11 || r == 12 || r == 13 || other
                == JokerId::Pareidolia);
            let gets = EngineHooks::on_hold(m, v, c, s).0;
            &&& is(JokerId::ShootTheMoon) ==> gets == given(
                r == 12,
                if c.debuff {
                    no_effect()
                } else {
                    CardEffect { h_mult: Double::of(13), ..no_effect() }
                },
            )
            &&& is(JokerId::Baron) ==> gets == given(
                r == 13,
                if c.debuff {
                    no_effect()
                } else {
                    times(Double::frac(15, 10))
                },
            )
            &&& is(JokerId::ReservedParking) ==> gets == given(
                face && s.unit("parking"@).below(m.env.prob_normal.over(Double::of(2))),
                dollars(1),
            )
            &&& is(JokerId::EvenSteven) ==> gets.len() == 0
        }),
{
    lemma_on_hold(m, other, v, c, s);
    reveal(effects::held_step);
}

/// Raised Fist gives twice the chips of the lowest held card, for that card.
pub proof fn law_raised_fist_doubles_the_lowest_card(
    m: Engine,
    other: JokerId,
    v: HandView,
    s: Streams,
    k: int,
)
    requires
        beside(m.jokers, other),
        m.jokers[0].id == JokerId::RaisedFist,
        0 <= k < v.held.len(),
        !v.held[k].debuff,
        rank(v.held[k]) >= 2,
        forall|i: int|
            0 <= i < v.held.len() && i != k ==> (#[trigger] v.held[i]).enhancement
                == Enhancement::Stone || rank(v.held[i]) > rank(v.held[k]),
        forall|a: int, b: int|
            0 <= a < v.held.len() && 0 <= b < v.held.len() && a != b ==> (#[trigger] v.held[a]).sort_id
                != (#[trigger] v.held[b]).sort_id,
        rank(v.held[k]) <= 14,
    ensures
        EngineHooks::on_hold(m, v, v.held[k], s).0 == seq![
            CardEffect {
                h_mult: Double::of(2).times(
                    Double::of(
                        if rank(v.held[k]) == 14 {
                            11
                        } else if rank(v.held[k]) >= 11 {
                            10
                        } else {
                            rank(v.held[k])
                        },
                    ),
                ),
                ..no_effect()
            },
        ],
        forall|i: int|
            0 <= i < v.held.len() && i != k ==> EngineHooks::on_hold(
                m,
                v,
                #[trigger] v.held[i],
                s,
            ).0.len() == 0,
{
    reveal(effects::held_step);
    lemma_on_hold(m, other, v, v.held[k], s);
    lemma_lowest(v.held, k, v.held.len());
    assert forall|i: int| 0 <= i < v.held.len() && i != k implies EngineHooks::on_hold(
        m,
        v,
        #[trigger] v.held[i],
        s,
    ).0.len() == 0 by {
        lemma_on_hold(m, other, v, v.held[i], s);
    }
}

proof fn lemma_lowest(held: Seq<Card>, k: int, n: nat)
    requires
        0 <= k < held.len(),
        n <= held.len(),
        2 <= rank(held[k]) <= 14,
        forall|i: int|
            0 <= i < held.len() && i != k ==> (#[trigger] held[i]).enhancement == Enhancement::Stone
                || rank(held[i]) > rank(held[k]),
    ensures
        ({
            let low = effects::lowest_held(held, n);
            &&& k < n ==> low == (held[k].rank.0, held[k].rank.chips() as int, Some(held[k].sort_id))
            &&& k >= n ==> low.0 > rank(held[k])
        }),
    decreases n,
{
    if n > 0 {
        lemma_lowest(held, k, (n - 1) as nat);
    }
}

// ---- jokers by themselves ------------------------------------------------

/// Whether a row is one joker alone, of no edition.
pub open spec fn alone(m: Engine) -> bool {
    &&& m.jokers.len() == 1
    &&& !m.jokers[0].debuffed
    &&& !copies(m.jokers[0].id)
    &&& m.jokers[0].edition == Edition::Plain
    &&& !m.env.observatory
}

/// What the jokers make of chips and mult.
pub open spec fn made_of(
    m: Engine,
    v: HandView,
    hands: HandsTable,
    c: nat,
    t: nat,
    dollars: i64,
    triggered: bool,
    s: Streams,
) -> MainOutcome<Engine> {
    EngineHooks::at_main(
        m,
        v,
        hands,
        Double::of(c as int),
        Double::of(t as int),
        dollars,
        triggered,
        s,
    )
}

/// Whether the chips and the mult are these.
pub open spec fn comes_to(r: MainOutcome<Engine>, c: int, t: int) -> bool {
    r.chips == Double::of(c) && r.mult == Double::of(t)
}

proof fn lemma_not_observed(e: Engine, v: HandView, mult: Double, n: nat)
    requires
        !e.env.observatory,
    ensures
        observed(e, v, mult, n) == mult,
    decreases n,
{
    if n > 0 {
        lemma_not_observed(e, v, mult, (n - 1) as nat);
    }
}

#[verifier::rlimit(40)]
pub proof fn lemma_alone(
    m: Engine,
    v: HandView,
    hands: HandsTable,
    c: nat,
    t: nat,
    dollars: i64,
    triggered: bool,
    s: Streams,
)
    requires
        alone(m),
        0 < t < 0x1_0000_0000,
        c < 0x1_0000_0000,
    ensures
        ({
            let r = made_of(m, v, hands, c, t, dollars, triggered, s);
            let e = Engine { out: crate::jokers::Outbox::empty(), ..m };
            let step = effects::main_step(
                m.jokers[0],
                v,
                hands,
                1,
                Double::of(0),
                live_x(e, 0),
                m.jokers[0].id == JokerId::Smeared,
                triggered,
                m.env,
                m.out,
                dollars,
                s,
            );
            &&& r.dollars == step.dollars
            &&& r.s == step.s
            &&& r.hooks.out == step.out
            &&& step.eff is None ==> comes_to(r, c as int, t as int)
            &&& forall|k: nat|
                k < 0x1_0000_0000 && step.eff == effects::adds_mult(#[trigger] Double::of(k as int))
                    ==> comes_to(r, c as int, (t + k) as int)
            &&& forall|k: nat|
                k < 0x1_0000_0000 && step.eff == effects::adds_chips(
                    #[trigger] Double::of(k as int),
                ) ==> comes_to(r, (c + k) as int, t as int)
            &&& forall|k: nat|
                0 < k < 0x1_0000 && step.eff == effects::multiplies(#[trigger] Double::of(k as int))
                    ==> comes_to(r, c as int, (t * k) as int)
        }),
{
    let e = Engine { out: crate::jokers::Outbox::empty(), ..m };
    law_who_acts(m.jokers, 0);
    reveal_with_fuel(others_worth, 2);
    reveal_with_fuel(baseball, 2);
    let first = Tally {
        out: m.out,
        chips: Double::of(c as int),
        mult: Double::of(t as int),
        dollars,
        s,
    };
    let done = first.one(e, v, hands, triggered, 0);
    assert(first.from(e, v, hands, triggered, 0) == done.from(e, v, hands, triggered, 1));
    assert(done.from(e, v, hands, triggered, 1) == done);
    assert(owns(m.jokers, JokerId::Smeared) == (m.jokers[0].id == JokerId::Smeared)) by {
        if m.jokers[0].id == JokerId::Smeared {
            assert(m.jokers[0].id == JokerId::Smeared);
        }
    }
    lemma_not_observed(
        Engine { out: done.out, ..m },
        v,
        done.mult,
        m.keys.len(),
    );
    lemma_whole_sum(c, 0);
    lemma_whole_sum(t, 0);
    lemma_whole_order(0, 0);
    assert forall|k: nat| k < 0x1_0000_0000 implies (#[trigger] Double::of(k as int)).same_value(
        Double::of(0),
    ) == (k == 0) && Double::of(c as int).plus(Double::of(k as int)) == Double::of((c + k) as int)
        && Double::of(t as int).plus(Double::of(k as int)) == Double::of((t + k) as int) by {
        lemma_whole_order(k, 0);
        lemma_whole_sum(c, k);
        lemma_whole_sum(t, k);
    }
    assert forall|k: nat| 0 < k < 0x1_0000 implies Double::of(t as int).times(
        #[trigger] Double::of(k as int),
    ) == Double::of((t * k) as int) by {
        assert(0 < t * k < 0x20_0000_0000_0000) by (nonlinear_arith)
            requires
                0 < t < 0x1_0000_0000,
                0 < k < 0x1_0000,
        ;
        lemma_whole_product(t, k);
    }
}

/// The jokers that always give something, or count something of the run.
#[verifier::rlimit(40)]
pub proof fn law_jokers_that_count(
    m: Engine,
    v: HandView,
    hands: HandsTable,
    c: nat,
    t: nat,
    dollars: i64,
    triggered: bool,
    s: Streams,
)
    requires
        alone(m),
        0 < t < 0x1_0000_0000,
        c < 0x1_0000_0000,
        !Double::of(1).below(m.jokers[0].state.x_mult),
        0 <= m.env.discards_left < 1000,
        m.env.deck_len < 0x1_0000,
        m.env.stone_tally < 0x1_0000,
        m.env.playing_cards_len < 0x1_0000,
        m.env.starting_deck_size == 52,
        0 <= m.env.tarots_used < 0x1_0000,
        0 <= m.env.dollars < 0x1000_0000,
        m.out.dollar_buffer == 0,
    ensures
        ({
            let is = |id: JokerId| m.jokers[0].id == id;
            let r = made_of(m, v, hands, c, t, dollars, triggered, s);
            let env = m.env;
            let adds = |n: int| comes_to(r, c as int, t + n);
            let chips = |n: int| comes_to(r, c + n, t as int);
            &&& is(JokerId::Joker) ==> adds(4)
            &&& is(JokerId::GrosMichel) ==> adds(15)
            &&& is(JokerId::Stuntman) ==> chips(250)
            &&& is(JokerId::Abstract) ==> adds(3)
            &&& is(JokerId::Half) ==> adds(
                if v.full_hand.len() <= 3 {
                    20
                } else {
                    0
                },
            )
            &&& is(JokerId::MysticSummit) ==> adds(
                if env.discards_left == 0 {
                    15
                } else {
                    0
                },
            )
            &&& is(JokerId::Banner) ==> chips(30 * env.discards_left)
            &&& is(JokerId::BlueJoker) ==> chips(2 * env.deck_len)
            &&& is(JokerId::Stone) && env.stone_tally >= 0 ==> chips(25 * env.stone_tally)
            &&& is(JokerId::Bull) ==> chips(2 * env.dollars)
            &&& is(JokerId::Supernova) ==> adds(hands.row(v.hand_type).played as int)
            &&& is(JokerId::FortuneTeller) ==> adds(env.tarots_used as int)
            &&& is(JokerId::Erosion) ==> adds(
                if env.playing_cards_len < 52 {
                    4 * (52 - env.playing_cards_len)
                } else {
                    0
                },
            )
        }),
{
    lemma_alone(m, v, hands, c, t, dollars, triggered, s);
    reveal(effects::main_step);
    reveal(effects::own_effect);
    let p = |a: nat, b: nat| Double::of(a as int).times(Double::of(b as int));
    assert forall|a: nat, b: nat| 0 < a <= 100 && 0 < b < 0x1000_0000 implies #[trigger] p(a, b)
        == Double::of((a * b) as int) && 0 < a * b < 0x20_0000_0000_0000 by {
        assert(0 < a * b < 0x20_0000_0000_0000) by (nonlinear_arith)
            requires
                0 < a <= 100,
                0 < b < 0x1000_0000,
        ;
        lemma_whole_product(a, b);
    }
    assert(p(3, 1) == Double::of(3));
    if m.env.discards_left > 0 {
        assert(p(30, m.env.discards_left as nat) == Double::of(30 * m.env.discards_left));
    }
    if m.env.deck_len > 0 {
        assert(p(2, m.env.deck_len as nat) == Double::of(2 * m.env.deck_len));
    }
    if m.env.stone_tally > 0 {
        assert(p(25, m.env.stone_tally as nat) == Double::of(25 * m.env.stone_tally));
    }
    if m.env.dollars > 0 {
        assert(p(2, m.env.dollars as nat) == Double::of(2 * m.env.dollars));
    }
    if m.env.playing_cards_len < 52 {
        let gone = (52 - m.env.playing_cards_len) as nat;
        assert(p(4, gone) == Double::of((4 * gone) as int));
    }
}

/// The jokers that wait for a hand that the played cards hold, and what they give
/// for it.
#[verifier::rlimit(40)]
pub proof fn law_jokers_for_poker_hands(
    m: Engine,
    v: HandView,
    hands: HandsTable,
    c: nat,
    t: nat,
    dollars: i64,
    triggered: bool,
    s: Streams,
)
    requires
        alone(m),
        0 < t < 0x1_0000_0000,
        c < 0x1_0000_0000,
        m.jokers[0].state == JokerState::fresh(m.jokers[0].id),
    ensures
        ({
            let r = made_of(m, v, hands, c, t, dollars, triggered, s);
            let gives = |id: JokerId, ht: HandType, chips: int, mult: int, x: int|
                m.jokers[0].id == id ==> if (v.holds)(ht) {
                    comes_to(r, c + chips, (t + mult) * x)
                } else {
                    comes_to(r, c as int, t as int)
                };
            &&& gives(JokerId::Jolly, HandType::Pair, 0, 8, 1)
            &&& gives(JokerId::Zany, HandType::ThreeOfAKind, 0, 12, 1)
            &&& gives(JokerId::Mad, HandType::TwoPair, 0, 10, 1)
            &&& gives(JokerId::Crazy, HandType::Straight, 0, 12, 1)
            &&& gives(JokerId::Droll, HandType::Flush, 0, 10, 1)
            &&& gives(JokerId::Sly, HandType::Pair, 50, 0, 1)
            &&& gives(JokerId::Wily, HandType::ThreeOfAKind, 100, 0, 1)
            &&& gives(JokerId::Clever, HandType::TwoPair, 80, 0, 1)
            &&& gives(JokerId::Devious, HandType::Straight, 100, 0, 1)
            &&& gives(JokerId::Crafty, HandType::Flush, 80, 0, 1)
            &&& gives(JokerId::Duo, HandType::Pair, 0, 0, 2)
            &&& gives(JokerId::Trio, HandType::ThreeOfAKind, 0, 0, 3)
            &&& gives(JokerId::Family, HandType::FourOfAKind, 0, 0, 4)
            &&& gives(JokerId::Order, HandType::Straight, 0, 0, 3)
            &&& gives(JokerId::Tribe, HandType::Flush, 0, 0, 2)
        }),
{
    lemma_alone(m, v, hands, c, t, dollars, triggered, s);
    reveal(effects::main_step);
    reveal(effects::own_effect);
    lemma_whole_order(1, 1);
    lemma_whole_order(1, 2);
    lemma_whole_order(1, 3);
    lemma_whole_order(1, 4);
}

/// The jokers that multiply the mult where something holds of the run.
#[verifier::rlimit(40)]
pub proof fn law_jokers_that_multiply(
    m: Engine,
    v: HandView,
    hands: HandsTable,
    c: nat,
    t: nat,
    dollars: i64,
    triggered: bool,
    s: Streams,
)
    requires
        alone(m),
        0 < t < 0x1_0000_0000,
        c < 0x1_0000_0000,
        m.jokers[0].state == JokerState::fresh(m.jokers[0].id),
        0 <= m.env.hands_played_total < 0x1_0000_0000,
        0 <= m.jokers[0].hands_at_create <= m.env.hands_played_total,
        1 < m.env.joker_slots < 100,
    ensures
        ({
            let r = made_of(m, v, hands, c, t, dollars, triggered, s);
            let times = |id: JokerId, holds: bool, x: int|
                m.jokers[0].id == id ==> comes_to(
                    r,
                    c as int,
                    if holds {
                        t * x
                    } else {
                        t as int
                    },
                );
            let since = m.env.hands_played_total - m.jokers[0].hands_at_create;
            &&& times(JokerId::Cavendish, true, 3)
            &&& times(JokerId::Acrobat, m.env.hands_left == 0, 3)
            &&& times(JokerId::DriversLicense, m.env.driver_tally >= 16, 3)
            &&& times(JokerId::CardSharp, hands.row(v.hand_type).played_this_round >= 2, 3)
            &&& times(JokerId::LoyaltyCard, since % 6 == 5, 4)
            &&& times(JokerId::Stencil, true, m.env.joker_slots as int)
            &&& times(
                JokerId::Blackboard,
                forall|k: int|
                    0 <= k < v.held.len() ==> (#[trigger] v.held[k]).suits_flush(Suit::Clubs, false)
                        || v.held[k].suits_flush(Suit::Spades, false),
                3,
            )
        }),
{
    lemma_alone(m, v, hands, c, t, dollars, triggered, s);
    reveal(effects::main_step);
    reveal(effects::own_effect);
    reveal_with_fuel(stencils, 2);
    lemma_whole_order(1, 1);
    let slots = m.env.joker_slots as nat;
    if m.jokers[0].id == JokerId::Stencil {
        lemma_slots_left(slots);
        lemma_whole_order(1, slots);
    }
}

proof fn lemma_slots_left(slots: nat)
    requires
        1 < slots < 100,
    ensures
        Double::of(slots as int).minus(Double::of(1)).plus(Double::of(1)) == Double::of(
            slots as int,
        ),
{
    crate::exact::lemma_whole_difference(slots, 1);
    lemma_whole_sum((slots - 1) as nat, 1);
}

/// The jokers that give what they have stored.
#[verifier::rlimit(40)]
pub proof fn law_jokers_that_give_what_they_stored(
    m: Engine,
    v: HandView,
    hands: HandsTable,
    c: nat,
    t: nat,
    dollars: i64,
    triggered: bool,
    s: Streams,
    k: nat,
)
    requires
        alone(m),
        0 < t < 0x1_0000_0000,
        c < 0x1_0000_0000,
        k < 0x1_0000,
    ensures
        ({
            let j = m.jokers[0];
            let r = made_of(m, v, hands, c, t, dollars, triggered, s);
            let plain = j.state.x_mult == Double::of(1);
            &&& plain && j.state.mult == Double::of(k as int) && (j.id == JokerId::Ceremonial || j.id
                == JokerId::Trousers || j.id == JokerId::RideTheBus || j.id == JokerId::Flash || j.id
                == JokerId::Popcorn || j.id == JokerId::GreenJoker || j.id == JokerId::RedCard)
                ==> comes_to(r, c as int, (t + k) as int)
            &&& plain && j.state.chips == Double::of(k as int) && (j.id == JokerId::Wee || j.id
                == JokerId::Castle || j.id == JokerId::Square || j.id == JokerId::Runner || j.id
                == JokerId::IceCream) ==> comes_to(r, (c + k) as int, t as int)
            &&& k > 1 && j.state.x_mult == Double::of(k as int) && (j.id == JokerId::Campfire || j.id
                == JokerId::Hologram || j.id == JokerId::Constellation || j.id == JokerId::Vampire
                || j.id == JokerId::Obelisk || j.id == JokerId::LuckyCat || j.id == JokerId::Glass
                || j.id == JokerId::Madness || j.id == JokerId::HitTheRoad || j.id
                == JokerId::Yorick || j.id == JokerId::Ramen) ==> comes_to(
                r,
                c as int,
                (t * k) as int,
            )
            &&& k > 1 && plain && j.state.extra == Double::of(k as int) && j.id == JokerId::Caino
                ==> comes_to(r, c as int, (t * k) as int)
        }),
{
    lemma_alone(m, v, hands, c, t, dollars, triggered, s);
    reveal(effects::main_step);
    reveal(effects::own_effect);
    lemma_whole_order(1, 1);
    lemma_whole_order(0, k);
    lemma_whole_order(1, k);
    let r = made_of(m, v, hands, c, t, dollars, triggered, s);
    if m.jokers[0].state.mult == Double::of(k as int) {
        assert(effects::gathered_mult(m.jokers[0]) == if k > 0 {
            effects::adds_mult(Double::of(k as int))
        } else {
            None
        });
    }
}

/// Bootstraps give 2 mult for every five dollars.
pub proof fn law_bootstraps_count_fives(
    m: Engine,
    v: HandView,
    hands: HandsTable,
    c: nat,
    t: nat,
    dollars: i64,
    triggered: bool,
    s: Streams,
)
    requires
        alone(m),
        m.jokers[0].id == JokerId::Bootstraps,
        !Double::of(1).below(m.jokers[0].state.x_mult),
        0 < t < 0x1_0000_0000,
        c < 0x1_0000_0000,
        0 <= m.env.dollars < 0x1000_0000,
        m.out.dollar_buffer == 0,
    ensures
        comes_to(
            made_of(m, v, hands, c, t, dollars, triggered, s),
            c as int,
            t + 2 * (m.env.dollars as int / 5),
        ),
{
    lemma_alone(m, v, hands, c, t, dollars, triggered, s);
    reveal(effects::main_step);
    reveal(effects::own_effect);
    let d = m.env.dollars as nat;
    crate::exact::lemma_whole_quotient(d, 5);
    let steps = Double::of(d as int).over(Double::of(5)).floored();
    let n = d / 5;
    if n > 0 {
        crate::exact::lemma_one_double(steps, n);
        lemma_whole_order(1, n);
        lemma_whole_product(2, n);
    } else {
        crate::exact::lemma_no_double(steps);
    }
}

// ---- before a hand is scored ---------------------------------------------

/// Whether a row is one joker alone.
pub open spec fn by_itself(m: Engine) -> bool {
    m.jokers.len() == 1 && !m.jokers[0].debuffed && !copies(m.jokers[0].id)
}

pub proof fn lemma_before(m: Engine, v: HandView, hands: HandsTable, dollars: i64, s: Streams)
    requires
        by_itself(m),
        m.jokers[0].id != JokerId::Dna,
    ensures
        ({
            let o = EngineHooks::at_before(m, v, hands, dollars, s);
            let step = effects::before_step(
                m.jokers[0],
                false,
                v,
                m.jokers[0].id == JokerId::Pareidolia,
                hands,
                m.env,
                m.out,
                dollars,
                s,
            );
            &&& o.hooks.jokers[0] == step.j
            &&& o.full_hand == step.full_hand
            &&& o.held == v.held
            &&& o.dollars == step.dollars
            &&& o.s == step.s
            &&& o.hands == (if step.level_up {
                hands.leveled_up(v.hand_type, 1)
            } else {
                hands
            })
        }),
{
    law_who_acts(m.jokers, 0);
    reveal(effects::before_step);
    assert(owns(m.jokers, JokerId::Pareidolia) == (m.jokers[0].id == JokerId::Pareidolia)) by {
        if m.jokers[0].id == JokerId::Pareidolia {
            assert(m.jokers[0].id == JokerId::Pareidolia);
        }
    }
    let first = BeforeOutcome {
        hooks: m,
        full_hand: v.full_hand,
        held: v.held,
        hands,
        dollars,
        s,
    };
    assert(standing(v, first) == v);
    let o = before_one(v, first, 0);
    assert(before_from(v, first, 0, 1) == before_from(v, o, 1, 1));
}

/// The jokers that grow when a hand is played.
pub proof fn law_jokers_that_grow_with_hands(
    m: Engine,
    v: HandView,
    hands: HandsTable,
    dollars: i64,
    s: Streams,
)
    requires
        by_itself(m),
    ensures
        ({
            let is = |id: JokerId| m.jokers[0].id == id;
            let was = m.jokers[0].state;
            let o = EngineHooks::at_before(m, v, hands, dollars, s);
            let now = o.hooks.jokers[0].state;
            let faces = exists|k: int|
                0 <= k < v.scoring.len() && is_plain_face(
                    v.full_hand[(#[trigger] v.scoring[k]) as int],
                );
            &&& is(JokerId::Trousers) ==> now.mult == (if (v.holds)(HandType::TwoPair) || (v.holds)(
                HandType::FullHouse,
            ) {
                was.mult.plus(Double::of(2))
            } else {
                was.mult
            })
            &&& is(JokerId::Square) ==> now.chips == (if v.full_hand.len() == 4 {
                was.chips.plus(Double::of(4))
            } else {
                was.chips
            })
            &&& is(JokerId::Runner) ==> now.chips == (if (v.holds)(HandType::Straight) {
                was.chips.plus(Double::of(15))
            } else {
                was.chips
            })
            &&& is(JokerId::GreenJoker) ==> now.mult == was.mult.plus(Double::of(1))
            &&& is(JokerId::RideTheBus) ==> now.mult == (if faces {
                Double::of(0)
            } else {
                was.mult.plus(Double::of(1))
            })
            &&& is(JokerId::TodoList) && dollars <= i64::MAX - 4 ==> o.dollars == (if v.hand_type
                == was.to_do_hand {
                dollars + 4
            } else {
                dollars as int
            })
            &&& is(JokerId::Space) ==> o.hands == (if s.unit("space"@).below(
                m.env.prob_normal.over(Double::of(4)),
            ) {
                hands.leveled_up(v.hand_type, 1)
            } else {
                hands
            })
        }),
{
    if m.jokers[0].id != JokerId::Dna {
        lemma_before(m, v, hands, dollars, s);
        reveal(effects::before_step);
    }
}

// ---- after a hand, discards and the end of a round -----------------------

/// What a joker has stored.
pub open spec fn state_of(e: Engine) -> JokerState {
    e.jokers[0].state
}

/// Whether a joker that is by itself was told to go.
pub open spec fn goes(before: Engine, now: Engine) -> bool {
    now.out.events == before.out.events.push(OutEvent::DestroyJoker(before.jokers[0].sort_id))
}

/// After a hand an Ice Cream melts by 5 chips and a Seltzer loses one of its hands;
/// both go when nothing would be left.
pub proof fn law_jokers_that_run_out_with_hands(m: Engine, v: HandView, s: Streams, k: nat)
    requires
        by_itself(m),
        k < 0x1_0000,
    ensures
        ({
            let now = EngineHooks::at_after(m, v, s).0;
            let was = state_of(m);
            &&& m.jokers[0].id == JokerId::IceCream && was.chips == Double::of(k as int) ==> if k
                <= 5 {
                goes(m, now)
            } else {
                state_of(now).chips == Double::of(k - 5) && now.out == m.out
            }
            &&& m.jokers[0].id == JokerId::Selzer && was.extra == Double::of(k as int) ==> if k <= 1 {
                goes(m, now)
            } else {
                state_of(now).extra == Double::of(k - 1) && now.out == m.out
            }
        }),
{
    law_who_acts(m.jokers, 0);
    assert(m.after_from(0, 1) == m.after_one(0).after_from(1, 1));
    lemma_spent(k, 5);
    lemma_spent(k, 1);
}

proof fn lemma_spent(k: nat, n: nat)
    requires
        k < 0x1_0000,
        0 < n < 1000,
    ensures
        effects::used_up(Double::of(k as int), n as int) <==> k <= n,
        k > n ==> Double::of(k as int).minus(Double::of(n as int)) == Double::of(k - n),
{
    if k > n {
        crate::exact::lemma_whole_difference(k, n);
        lemma_whole_order((k - n) as nat, 0);
    } else {
        crate::exact::lemma_nothing_left(k, n);
    }
}

proof fn lemma_discard(m: Engine, c: Card, all: Seq<Card>, d: i64, s: Streams)
    requires
        by_itself(m),
        m.jokers[0].id != JokerId::Smeared,
        m.jokers[0].id != JokerId::Pareidolia,
    ensures
        ({
            let r = EngineHooks::at_discard(m, c, all, d, s);
            let step = effects::discard_step(m.jokers[0], false, c, all, false, false, m.env, m.out, d);
            &&& r.0 == step.removed
            &&& r.1.jokers[0] == step.j
            &&& r.1.out == step.out
            &&& r.2 == step.dollars
        }),
{
    law_who_acts(m.jokers, 0);
    assert(!owns(m.jokers, JokerId::Pareidolia) && !owns(m.jokers, JokerId::Smeared));
    let st = Discarding { e: m, removed: false, dollars: d };
    let one = st.one(c, all, false, false, 0);
    assert(st.from(c, all, false, false, 0, 1) == one.from(c, all, false, false, 1, 1));
}

/// What the jokers make of a discarded card: money for the asked rank, a Jack, the
/// asked suit, or three faces; and a card destroyed for 3 dollars if it is the first
/// discard and alone.
#[verifier::rlimit(40)]
pub proof fn law_jokers_for_discards(m: Engine, c: Card, all: Seq<Card>, d: i64, s: Streams)
    requires
        by_itself(m),
        2 <= c.rank.0 <= 14,
        0 <= d < 1_000_000_000,
    ensures
        ({
            let is = |id: JokerId| m.jokers[0].id == id;
            let r = EngineHooks::at_discard(m, c, all, d, s);
            let was = state_of(m);
            let now = state_of(r.1);
            let ranked = !c.debuff && c.enhancement != Enhancement::Stone;
            &&& is(JokerId::Mail) ==> r.2 == (if ranked && c.rank.0 == m.env.mail_card_id {
                d + 5
            } else {
                d as int
            })
            &&& is(JokerId::HitTheRoad) ==> now.x_mult == (if ranked && c.rank.0 == 11 {
                was.x_mult.plus(Double::frac(5, 10))
            } else {
                was.x_mult
            })
            &&& is(JokerId::Castle) ==> now.chips == (if has_suit(c, m.env.castle_suit, false) {
                was.chips.plus(Double::of(3))
            } else {
                was.chips
            })
            &&& is(JokerId::Trading) ==> {
                let first = m.env.discards_used_round <= 0 && all.len() == 1;
                r.0 == first && r.2 == (if first {
                    d + 3
                } else {
                    d as int
                })
            }
            &&& is(JokerId::Faceless) ==> r.2 == (if all.len() > 0 && all.last().sort_id
                == c.sort_id && effects::faces_among(all, false, all.len()) >= 3 {
                d + 5
            } else {
                d as int
            })
            &&& !r.0 || m.jokers[0].id == JokerId::Trading
        }),
{
    if m.jokers[0].id != JokerId::Smeared && m.jokers[0].id != JokerId::Pareidolia {
        lemma_discard(m, c, all, d, s);
        reveal(effects::discard_step);
    } else {
        law_who_acts(m.jokers, 0);
        reveal(effects::discard_step);
        let p = owns(m.jokers, JokerId::Pareidolia);
        let sm = owns(m.jokers, JokerId::Smeared);
        let st = Discarding { e: m, removed: false, dollars: d };
        let one = st.one(c, all, p, sm, 0);
        assert(st.from(c, all, p, sm, 0, 1) == one.from(c, all, p, sm, 1, 1));
    }
}

proof fn lemma_round_end(m: Engine, hands: HandsTable, lost: bool, s: Streams)
    requires
        by_itself(m),
    ensures
        ({
            let r = EngineHooks::at_round_end(m, hands, lost, s);
            let step = effects::round_step(m.jokers[0], hands, lost, m.env, m.out, s);
            &&& r.0 == step.saved
            &&& r.1.jokers[0] == step.j
            &&& r.1.out == step.out
            &&& r.2 == step.s
        }),
{
    law_who_acts(m.jokers, 0);
    let st = Ending { e: m, saved: false, s };
    let one = st.one(hands, lost, 0);
    assert(st.from(hands, lost, 0, 1) == one.from(hands, lost, 1, 1));
}

/// What the jokers do at the end of a round.
#[verifier::rlimit(40)]
pub proof fn law_jokers_at_the_end_of_a_round(
    m: Engine,
    hands: HandsTable,
    lost: bool,
    s: Streams,
    k: nat,
)
    requires
        by_itself(m),
        k < 0x1_0000,
        0 <= m.jokers[0].extra_value < 1_000_000,
    ensures
        ({
            let is = |id: JokerId| m.jokers[0].id == id;
            let r = EngineHooks::at_round_end(m, hands, lost, s);
            let now = r.1;
            let was = state_of(m);
            &&& is(JokerId::Egg) ==> now.jokers[0].extra_value == m.jokers[0].extra_value + 3
            &&& is(JokerId::Popcorn) && was.mult == Double::of(k as int) ==> if k <= 4 {
                goes(m, now)
            } else {
                state_of(now).mult == Double::of(k - 4)
            }
            &&& is(JokerId::TurtleBean) && was.extra == Double::of(k as int) ==> if k <= 1 {
                goes(m, now)
            } else {
                state_of(now).extra == Double::of(k - 1) && now.out.events == m.out.events.push(
                    OutEvent::TurtleBeanShrink,
                )
            }
            &&& is(JokerId::Rocket) ==> state_of(now).extra == (if m.env.blind_is_boss {
                was.extra.plus(Double::of(2))
            } else {
                was.extra
            })
            &&& is(JokerId::Invisible) ==> state_of(now).extra == was.extra.plus(Double::of(1))
            &&& is(JokerId::Gift) ==> now.out.events == m.out.events.push(OutEvent::GiftCard)
            &&& is(JokerId::GrosMichel) ==> {
                let gone = s.unit("gros_michel"@).below(m.env.prob_normal.over(Double::of(6)));
                gone == (now.out.events != m.out.events)
            }
            &&& is(JokerId::Cavendish) ==> {
                let gone = s.unit("cavendish"@).below(m.env.prob_normal.over(Double::of(1000)));
                if gone {
                    goes(m, now)
                } else {
                    now.out == m.out
                }
            }
            &&& is(JokerId::MrBones) ==> r.0 == (lost && Double::of(0).below(m.env.blind_chips)
                && Double::frac(25, 100).at_most(m.env.game_chips.over(m.env.blind_chips)))
            &&& r.0 ==> is(JokerId::MrBones) && goes(m, now)
            &&& is(JokerId::Campfire) && was.x_mult == Double::of(k as int) && k > 1
                ==> state_of(now).x_mult == (if m.env.blind_is_boss {
                Double::of(1)
            } else {
                was.x_mult
            })
            &&& is(JokerId::HitTheRoad) && was.x_mult == Double::of(k as int) && k > 1
                ==> state_of(now).x_mult == Double::of(1)
        }),
{
    lemma_round_end(m, hands, lost, s);
    reveal(effects::round_step);
    lemma_spent(k, 4);
    lemma_spent(k, 1);
    lemma_whole_order(1, k);
    if m.jokers[0].id == JokerId::GrosMichel {
        let gone = m.out.events.push(OutEvent::DestroyJoker(m.jokers[0].sort_id)).push(
            OutEvent::SetGrosMichelExtinct,
        );
        assert(gone.len() == m.out.events.len() + 2);
    }
}

/// What the jokers pay at cash out.
pub proof fn law_what_jokers_pay(m: Engine, k: nat)
    requires
        m.jokers.len() == 1,
        0 < k < 0x1_0000,
        0 <= m.env.nine_tally < 1_000_000,
        0 <= m.env.planets_used < 1_000_000,
        0 <= m.env.discards_left < 1_000_000,
    ensures
        ({
            let is = |id: JokerId| m.jokers[0].id == id && !m.jokers[0].debuffed;
            let pays = EngineHooks::payouts(m).0;
            &&& m.jokers[0].debuffed ==> pays == 0
            &&& is(JokerId::Golden) ==> pays == 4
            &&& is(JokerId::Cloud9) ==> pays == m.env.nine_tally
            &&& is(JokerId::Satellite) ==> pays == m.env.planets_used
            &&& is(JokerId::DelayedGrat) ==> pays == (if m.env.discards_used_round == 0 {
                2 * m.env.discards_left
            } else {
                0
            })
            &&& is(JokerId::Rocket) && m.jokers[0].state.extra == Double::of(k as int) ==> pays == k
            &&& is(JokerId::Joker) ==> pays == 0
        }),
{
    reveal_with_fuel(crate::jokers::engine::paid_out, 2);
    crate::exact::lemma_whole_truncated(k);
}

// ---- jokers that change what a run has -----------------------------------

/// What a joker gives a run while it is there.
#[verifier::rlimit(40)]
pub proof fn law_jokers_that_change_the_run(m: RunModel, j: OwnedJoker, d: spec_fn(RunModel) -> RunModel)
    requires
        0 <= m.round.hand_size < 1000,
        0 <= m.round.discards_left < 1000,
        0 <= m.limits.discards < 1000,
        0 <= m.limits.hands < 1000,
        -1000 < m.purse.bankrupt_at < 1000,
        0 <= m.purse.interest_amount < 1000,
        m.limits.joker_slots < 1000,
        0 <= m.reroll.free < 1000,
    ensures
        ({
            let n = m.with_joker(j, d);
            let is = |id: JokerId| j.id == id;
            let size = |k: int| n.round.hand_size == m.round.hand_size + k;
            let discards = |k: int|
                n.limits.discards == m.limits.discards + k && n.round.discards_left
                    == m.round.discards_left + k;
            &&& is(JokerId::Juggler) ==> size(1) && discards(0)
            &&& is(JokerId::Drunkard) ==> size(0) && discards(1)
            &&& is(JokerId::MerryAndy) ==> size(-1) && discards(3)
            &&& is(JokerId::Stuntman) ==> size(-2) && discards(0)
            &&& is(JokerId::Troubadour) ==> size(2) && n.limits.hands == m.limits.hands - 1
            &&& is(JokerId::CreditCard) ==> n.purse.bankrupt_at == m.purse.bankrupt_at - 20
            &&& is(JokerId::ToTheMoon) ==> n.purse.interest_amount == m.purse.interest_amount + 1
            &&& is(JokerId::Oops) ==> n.rates.prob_normal == m.rates.prob_normal.times(
                Double::of(2),
            )
            &&& is(JokerId::Chaos) ==> n.reroll.free == m.reroll.free + 1
            &&& is(JokerId::Joker) ==> size(0) && discards(0) && n.purse == m.purse
            &&& j.id != JokerId::Chicot ==> n.limits.joker_slots == m.limits.joker_slots + (
            if j.edition == Edition::Negative {
                1int
            } else {
                0
            }) && n.jokers == m.jokers.push(j)
        }),
{
    reveal(RunModel::with_joker);
    reveal(RunModel::passives_on);
    reveal(RunModel::with_free_rerolls);
    reveal(RunModel::reroll_priced);
}

// ---- jokers that create and destroy --------------------------------------

proof fn lemma_setting(m: Engine, s: Streams)
    requires
        by_itself(m),
    ensures
        EngineHooks::at_setting_blind(m, s).0 == (Setting { e: m, sliced: seq![], s }).step(0).e,
{
    let none: Seq<u32> = seq![];
    let st = Setting { e: m, sliced: none, s };
    assert(st.from(0, 1) == st.step(0).from(1, 1));
}

/// What a joker that is by itself does when a blind is set.
#[verifier::rlimit(40)]
pub proof fn law_jokers_when_a_blind_is_set(m: Engine, s: Streams)
    requires
        by_itself(m),
        m.env.joker_slots == 5,
        m.out.joker_buffer == 0,
    ensures
        ({
            let is = |id: JokerId| m.jokers[0].id == id;
            let now = EngineHooks::at_setting_blind(m, s).0;
            let asks = |e: OutEvent| now.out.events == m.out.events.push(e);
            let boss = m.env.blind_is_boss;
            &&& is(JokerId::Chicot) ==> if boss {
                asks(OutEvent::DisableBoss)
            } else {
                now == m
            }
            &&& is(JokerId::Burglar) ==> asks(OutEvent::Burglar)
            &&& is(JokerId::RiffRaff) ==> asks(OutEvent::CreateJokers(2))
            &&& is(JokerId::Marble) ==> asks(OutEvent::CreateMarbleStone)
            &&& is(JokerId::Cartomancer) ==> if m.out.has_room(m.env) {
                asks(OutEvent::CreateConsumable(ConsumableSet::Tarot, "car"))
            } else {
                now == m
            }
            &&& is(JokerId::Madness) ==> if boss {
                now == m
            } else {
                state_of(now).x_mult == state_of(m).x_mult.plus(Double::frac(5, 10))
            }
            &&& is(JokerId::Ceremonial) ==> now == m
        }),
{
    law_who_acts(m.jokers, 0);
    lemma_setting(m, s);
    let none: Seq<u32> = seq![];
    assert(!none.contains(m.jokers[0].sort_id));
    reveal_with_fuel(crate::jokers::engine::prey, 2);
    let e = m.and(OutEvent::CreateMarbleStone);
    assert(e.added_from(1, 0, 1) == e.added_step(1, 0).added_from(1, 1, 1));
    law_who_acts(e.jokers, 0);
}

/// A Ceremonial Dagger destroys the joker to its right, unless that is eternal, and
/// gains twice what it sells for as mult.
pub proof fn law_the_dagger_takes_its_neighbour(m: Engine, s: Streams)
    requires
        m.jokers.len() == 2,
        m.jokers[0].id == JokerId::Ceremonial,
        m.jokers[1].id == JokerId::Joker,
        !m.jokers[0].debuffed,
        !m.jokers[1].debuffed,
        m.jokers[0].sort_id != m.jokers[1].sort_id,
    ensures
        ({
            let now = EngineHooks::at_setting_blind(m, s).0;
            if m.jokers[1].eternal {
                now == m
            } else {
                &&& now.out.events == m.out.events.push(
                    OutEvent::DestroyJoker(m.jokers[1].sort_id),
                )
                &&& now.jokers[0].state.mult == m.jokers[0].state.mult.plus(
                    Double::of(2).times(Double::of(worth(m.jokers[1], m.env) as int)),
                )
            }
        }),
{
    law_who_acts(m.jokers, 0);
    law_who_acts(m.jokers, 1);
    let none: Seq<u32> = seq![];
    let st = Setting { e: m, sliced: none, s };
    assert(!none.contains(m.jokers[0].sort_id) && !none.contains(m.jokers[1].sort_id));
    assert(st.from(0, 2) == st.step(0).from(1, 2));
    let one = st.step(0);
    law_who_acts(one.e.jokers, 1);
    assert(one.from(1, 2) == one.step(1).from(2, 2));
    assert(one.e.jokers[1].id == JokerId::Joker);
}

/// What the jokers gain from destroyed cards: Caino a face, Glass Joker three
/// quarters for every Glass card.
pub proof fn law_jokers_that_mourn_cards(m: Engine, c: Card)
    requires
        by_itself(m),
        m.jokers[0].id == JokerId::Caino || m.jokers[0].id == JokerId::Glass,
    ensures
        ({
            let now = state_of(EngineHooks::at_destroyed(m, seq![c]));
            let was = state_of(m);
            &&& m.jokers[0].id == JokerId::Caino ==> now.extra == was.extra.plus(
                Double::of(
                    if is_plain_face(c) {
                        1
                    } else {
                        0
                    },
                ),
            )
            &&& m.jokers[0].id == JokerId::Glass ==> now.x_mult == was.x_mult.plus(
                Double::frac(75, 100).times(
                    Double::of(
                        if c.enhancement == Enhancement::Glass {
                            1
                        } else {
                            0
                        },
                    ),
                ),
            )
        }),
{
    law_who_acts(m.jokers, 0);
    assert(!owns(m.jokers, JokerId::Pareidolia));
    let cards = seq![c];
    assert(m.destroyed_from(cards, false, 0, 1) == m.destroyed_one(cards, false, 0).destroyed_from(
        cards,
        false,
        1,
        1,
    ));
    reveal_with_fuel(effects::faces_among, 2);
    reveal_with_fuel(crate::jokers::engine::glass_among, 2);
}

/// What the jokers create when a hand is scored: Vagabond a Tarot card with 4
/// dollars or less, Superposition one for an Ace in a straight, Seance a Spectral
/// card for a straight flush; all where there is room. Matador is paid 8 dollars if
/// the blind was triggered, and Misprint adds up to 23 mult.
#[verifier::rlimit(40)]
pub proof fn law_jokers_that_create_when_scoring(
    m: Engine,
    v: HandView,
    hands: HandsTable,
    c: nat,
    t: nat,
    dollars: i64,
    triggered: bool,
    s: Streams,
)
    requires
        alone(m),
        0 < t < 0x1_0000_0000,
        c < 0x1_0000_0000,
        m.jokers[0].state == JokerState::fresh(m.jokers[0].id),
        0 <= dollars < 1_000_000_000,
    ensures
        ({
            let is = |id: JokerId| m.jokers[0].id == id;
            let r = made_of(m, v, hands, c, t, dollars, triggered, s);
            let room = m.out.has_room(m.env);
            let asks = |holds: bool, e: OutEvent|
                r.hooks.out == (if holds {
                    m.out.and(e)
                } else {
                    m.out
                });
            let ace = exists|k: int|
                0 <= k < v.scoring.len() && rank(v.full_hand[(#[trigger] v.scoring[k]) as int])
                    == 14;
            &&& is(JokerId::Vagabond) ==> asks(
                room && m.env.dollars <= 4,
                OutEvent::CreateConsumable(ConsumableSet::Tarot, "vag"),
            )
            &&& is(JokerId::Superposition) ==> asks(
                room && ace && (v.holds)(HandType::Straight),
                OutEvent::CreateConsumable(ConsumableSet::Tarot, "sup"),
            )
            &&& is(JokerId::Seance) ==> asks(
                room && (v.holds)(HandType::StraightFlush),
                OutEvent::CreateConsumable(ConsumableSet::Spectral, "sea"),
            )
            &&& is(JokerId::Matador) ==> r.dollars == (if triggered {
                dollars + 8
            } else {
                dollars as int
            })
            &&& is(JokerId::Misprint) && 0 <= s.range("misprint"@, 0, 23) < 1000 ==> comes_to(
                r,
                c as int,
                t + s.range("misprint"@, 0, 23),
            )
        }),
{
    lemma_alone(m, v, hands, c, t, dollars, triggered, s);
    reveal(effects::main_step);
    reveal(effects::own_effect);
    lemma_whole_order(1, 1);
    if m.jokers[0].id == JokerId::Superposition {
        assert(effects::scores_ace(v) <==> exists|k: int|
            0 <= k < v.scoring.len() && rank(v.full_hand[(#[trigger] v.scoring[k]) as int]) == 14);
    }
}

} // verus!
