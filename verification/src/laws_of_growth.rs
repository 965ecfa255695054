//! What jokers and cards gain as a run goes on, and what their editions give.
use crate::cards::{Card, Edition, Enhancement, HandType, Seal};
use crate::double::Double;
use crate::exact::{lemma_whole_order, lemma_whole_sum};
use crate::items;
use crate::items::{ConsumableSet, JokerId};
use crate::jokers::effects;
use crate::jokers::engine::{baseball, observed, others_worth, Engine, Tally};
use crate::jokers::{owns, EngineHooks, OutEvent};
use crate::laws_of_jokers::{
    by_itself, comes_to, is_plain_face, law_who_acts, lemma_before, made_of, rank,
};
use crate::market;
use crate::rng::Streams;
use crate::run::RunModel;
use crate::scoring;
use crate::scoring::{
    BeforeOutcome, HandView, HandsTable, JokerHooks, NoJokers, RoundCards, Scoring,
};
use crate::shop::OwnedJoker;
use crate::trade;
use crate::usage;
use vstd::prelude::*;

verus! {

// ---- editions of jokers --------------------------------------------------

/// A joker that is Foil gives 50 chips, one that is Holographic 10 mult, and one
/// that is Polychrome one and a half times the mult, besides what it does; a debuffed
/// joker gives nothing.
#[verifier::rlimit(40)]
pub proof fn law_what_editions_of_jokers_give(
    m: Engine,
    v: HandView,
    hands: HandsTable,
    c: nat,
    t: nat,
    dollars: i64,
    triggered: bool,
    s: Streams,
)
    requires
        m.jokers.len() == 1,
        m.jokers[0].id == JokerId::EvenSteven,
        !m.env.observatory,
        m.jokers[0].state.x_mult == Double::of(1),
        c < 0x1_0000_0000,
        t < 0x1_0000_0000,
    ensures
        ({
            let j = m.jokers[0];
            let r = made_of(m, v, hands, c, t, dollars, triggered, s);
            &&& j.debuffed || j.edition == Edition::Plain || j.edition == Edition::Negative
                ==> comes_to(r, c as int, t as int)
            &&& !j.debuffed && j.edition == Edition::Foil ==> comes_to(r, (c + 50) as int, t as int)
            &&& !j.debuffed && j.edition == Edition::Holo ==> comes_to(r, c as int, (t + 10) as int)
            &&& !j.debuffed && j.edition == Edition::Polychrome ==> r.chips == Double::of(c as int)
                && r.mult == Double::of(t as int).times(Double::frac(15, 10))
        }),
{
    let e = Engine { out: crate::jokers::Outbox::empty(), ..m };
    law_who_acts(m.jokers, 0);
    reveal(effects::main_step);
    reveal(effects::own_effect);
    reveal_with_fuel(others_worth, 2);
    reveal_with_fuel(baseball, 2);
    lemma_whole_order(1, 1);
    lemma_whole_sum(c, 50);
    lemma_whole_sum(t, 10);
    let first = Tally {
        out: m.out,
        chips: Double::of(c as int),
        mult: Double::of(t as int),
        dollars,
        s,
    };
    let done = first.one(e, v, hands, triggered, 0);
    assert(first.from(e, v, hands, triggered, 0) == done.from(e, v, hands, triggered, 1));
    lemma_unobserved(Engine { out: done.out, ..m }, v, done.mult, m.keys.len());
}

proof fn lemma_unobserved(e: Engine, v: HandView, mult: Double, n: nat)
    requires
        !e.env.observatory,
    ensures
        observed(e, v, mult, n) == mult,
    decreases n,
{
    if n > 0 {
        lemma_unobserved(e, v, mult, (n - 1) as nat);
    }
}

/// With the Observatory a held planet of the played hand multiplies the mult by one
/// and a half, other consumables do nothing.
pub proof fn law_the_observatory_counts_planets(e: Engine, v: HandView, mult: Double)
    requires
        e.keys.len() == 1,
        e.env.observatory,
    ensures
        observed(e, v, mult, 1) == (if items::planet_hand(e.keys[0]@) == Some(v.hand_type) {
            mult.times(Double::frac(15, 10))
        } else {
            mult
        }),
{
    reveal_with_fuel(observed, 2);
}

// ---- what jokers gain ----------------------------------------------------

/// What jokers gain outside of rounds: Flash Card 2 mult by a reroll, Campfire a
/// quarter by a sale, Red Card 3 mult by a skipped pack, Constellation a tenth by a
/// planet; debuffed ones gain nothing.
pub proof fn law_what_jokers_gain(j: OwnedJoker)
    ensures
        ({
            let live = !j.debuffed;
            &&& trade::flash_grown()(j).state.mult == (if live && j.id == JokerId::Flash {
                j.state.mult.plus(Double::of(2))
            } else {
                j.state.mult
            })
            &&& trade::campfire_grown()(j).state.x_mult == (if live && j.id == JokerId::Campfire {
                j.state.x_mult.plus(Double::frac(25, 100))
            } else {
                j.state.x_mult
            })
            &&& trade::red_card_grown()(j).state.mult == (if live && j.id == JokerId::RedCard {
                j.state.mult.plus(Double::of(3))
            } else {
                j.state.mult
            })
            &&& usage::grown_by_use(true, 0)(j).state.x_mult == (if live && j.id
                == JokerId::Constellation {
                j.state.x_mult.plus(Double::frac(1, 10))
            } else {
                j.state.x_mult
            })
            &&& usage::grown_by_use(false, 0)(j) == j
            &&& crate::tarots::hologram_grown(1)(j).state.x_mult == (if live && j.id
                == JokerId::Hologram {
                j.state.x_mult.plus(Double::frac(25, 100).times(Double::of(1)))
            } else {
                j.state.x_mult
            })
        }),
{
}

/// Rerolling, selling, skipping a pack and using a planet have the jokers gain.
pub proof fn law_when_jokers_gain(m: RunModel, idx: usize)
    ensures
        m.consumable_sold(idx).refusal is None ==> m.consumable_sold(idx).run.jokers
            == m.jokers.map_values(trade::campfire_grown()),
        forall|key: Seq<char>|
            #[trigger] m.use_seen(key, 0).jokers == m.jokers.map_values(
                usage::grown_by_use(market::is_planet(key), 0),
            ),
{
    reveal(RunModel::consumable_sold);
}

// ---- events --------------------------------------------------------------

/// What comes of what jokers ask for: three hands more and no discards for the
/// Burglar, a smaller hand for the Turtle Bean, a dollar more for everything by the
/// Gift Card, and a card of stone by the Marble Joker.
pub proof fn law_what_comes_of_events(m: RunModel, d: spec_fn(RunModel) -> RunModel)
    requires
        0 <= m.round.hands_left < 1000,
        0 < m.round.hand_size < 1000,
    ensures
        ({
            let done = |e: OutEvent| m.event_done(e, d);
            &&& done(OutEvent::Burglar).round.hands_left == m.round.hands_left + 3
            &&& done(OutEvent::Burglar).round.discards_left == 0
            &&& done(OutEvent::TurtleBeanShrink).round.hand_size == m.round.hand_size - 1
            &&& done(OutEvent::DisableBoss) == d(m)
            &&& done(OutEvent::CreateMarbleStone).deck.len() == m.deck.len() + 1
            &&& done(OutEvent::CreateMarbleStone).deck[0].enhancement == Enhancement::Stone
            &&& forall|i: int|
                0 <= i < m.jokers.len() ==> (#[trigger] done(OutEvent::GiftCard).jokers[i]).extra_value
                    == m.jokers[i].extra_value.wrapping_add(1)
            &&& done(OutEvent::SetGrosMichelExtinct).pool_flags.dom().contains(
                "gros_michel_extinct"@,
            )
        }),
{
    reveal(RunModel::event_done);
    reveal(RunModel::marble_made);
    reveal(RunModel::gifts_given);
}

// ---- cards at the end of a round -----------------------------------------

/// A Gold card held at the end of a round pays 3 dollars and a Blue Seal wins a
/// planet, where there is room; debuffed cards do nothing.
pub proof fn law_what_held_cards_give_at_the_end(st: RoundCards<()>, c: Card, room: nat)
    requires
        c.seal != Seal::Red,
        0 <= st.dollars < 1_000_000_000,
    ensures
        ({
            let now = scoring::round_card::<NoJokers>(st, c, room);
            &&& now.dollars == st.dollars + (if !c.debuff && c.enhancement == Enhancement::Gold {
                3int
            } else {
                0
            })
            &&& now.planets == st.planets + (if !c.debuff && c.seal == Seal::Blue && st.planets
                < room {
                1nat
            } else {
                0
            })
        }),
{
    reveal_with_fuel(scoring::with_h_dollars, 1);
    reveal_with_fuel(scoring::round_looks, 1);
}

/// A Purple Seal wins a Tarot card when it is discarded, where there is room.
pub proof fn law_purple_seals_win_tarots(t: crate::play::Tossing, c: Card, cards: Seq<Card>, room: nat)
    ensures
        crate::play::tossed_one(t, c, cards, room).tarots == t.tarots + (if c.seal == Seal::Purple
            && !c.debuff && t.tarots < room {
            1nat
        } else {
            0
        }),
{
}

/// A Glass card that scored breaks one time in four; no other card does by itself.
pub proof fn law_glass_breaks(st: Scoring<()>, base: HandView, n: nat)
    requires
        0 < n <= base.scoring.len(),
    ensures
        ({
            let before = scoring::broken::<NoJokers>(st, base, (n - 1) as nat);
            let now = scoring::broken::<NoJokers>(st, base, n);
            let at = base.scoring[n - 1];
            let c = st.play[at as int];
            let breaks = c.enhancement == Enhancement::Glass && !c.debuff && before.s.unit(
                "glass"@,
            ).below(st.ctx.prob_normal.over(Double::of(4)));
            now.destroyed == if breaks {
                before.destroyed.push(at)
            } else {
                before.destroyed
            }
        }),
{
}

/// Sixth Sense destroys a single 6 played as the first hand of a round, and makes a
/// Spectral card if there is room.
pub proof fn law_sixth_sense_takes_a_six(m: Engine, c: Card, s: Streams)
    requires
        by_itself(m),
    ensures
        ({
            let r = EngineHooks::destroys(m, c, seq![c], s);
            let hit = m.jokers[0].id == JokerId::SixthSense && rank(c) == 6
                && m.env.hands_played_round == 0;
            &&& r.0 == hit
            &&& r.1.out == (if hit && m.out.has_room(m.env) {
                m.out.and(OutEvent::CreateConsumable(ConsumableSet::Spectral, "sixth"))
            } else {
                m.out
            })
        }),
{
    assert(owns(m.jokers, JokerId::SixthSense) == (m.jokers[0].id == JokerId::SixthSense)) by {
        if m.jokers[0].id == JokerId::SixthSense {
            assert(m.jokers[0].id == JokerId::SixthSense);
        }
    }
}

// ---- jokers that change played cards -------------------------------------

/// A Midas Mask turns a scoring face to Gold, and a Vampire takes the enhancement of a
/// scoring card for a tenth; other cards stay as they are. For one scoring card.
pub proof fn law_jokers_that_change_cards(
    m: Engine,
    v: HandView,
    hands: HandsTable,
    dollars: i64,
    s: Streams,
    at: usize,
)
    requires
        by_itself(m),
        v.scoring == seq![at],
        at < v.full_hand.len(),
    ensures
        ({
            let o = EngineHooks::at_before(m, v, hands, dollars, s);
            let c = v.full_hand[at as int];
            &&& m.jokers[0].id == JokerId::MidasMask ==> o.full_hand == v.full_hand.update(
                at as int,
                if is_plain_face(c) {
                    Card { enhancement: Enhancement::Gold, ..c }
                } else {
                    c
                },
            )
            &&& m.jokers[0].id == JokerId::Vampire ==> {
                let drinks = c.enhancement != Enhancement::Plain && !c.debuff;
                &&& o.full_hand == v.full_hand.update(
                    at as int,
                    if drinks {
                        Card { enhancement: Enhancement::Plain, ..c }
                    } else {
                        c
                    },
                )
                &&& o.hooks.jokers[0].state.x_mult == (if drinks {
                    m.jokers[0].state.x_mult.plus(Double::frac(1, 10).times(Double::of(1)))
                } else {
                    m.jokers[0].state.x_mult
                })
            }
        }),
{
    if m.jokers[0].id != JokerId::Dna {
        lemma_before(m, v, hands, dollars, s);
        reveal(effects::before_step);
        reveal_with_fuel(effects::gilded, 2);
        reveal_with_fuel(effects::drained, 2);
        let c = v.full_hand[at as int];
        assert(v.scoring[0] == at);
        assert(v.full_hand.update(at as int, c) =~= v.full_hand);
    }
}

/// DNA puts a copy of a single card played as the first hand of a round into the hand;
/// otherwise it does nothing.
pub proof fn law_dna_copies_a_single_card(
    m: Engine,
    v: HandView,
    hands: HandsTable,
    dollars: i64,
    s: Streams,
)
    requires
        by_itself(m),
        m.jokers[0].id == JokerId::Dna,
        v.full_hand.len() > 0,
    ensures
        ({
            let o = EngineHooks::at_before(m, v, hands, dollars, s);
            let copies = m.env.hands_played_round == 0 && v.full_hand.len() == 1;
            &&& !copies ==> o.held == v.held
            &&& copies ==> o.held.len() == v.held.len() + 1 && o.held.last() == (Card {
                sort_id: o.held.last().sort_id,
                ..v.full_hand[0]
            })
            &&& o.full_hand == v.full_hand
        }),
{
    law_who_acts(m.jokers, 0);
    reveal(effects::before_step);
    let first = BeforeOutcome {
        hooks: m,
        full_hand: v.full_hand,
        held: v.held,
        hands,
        dollars,
        s,
    };
    assert(crate::jokers::engine::standing(v, first) == v);
    let o = crate::jokers::engine::before_one(v, first, 0);
    assert(crate::jokers::engine::before_from(v, first, 0, 1)
        == crate::jokers::engine::before_from(v, o, 1, 1));
}

/// An Obelisk gains a fifth if another hand was played as often as the hand that is
/// played, and starts anew if none was.
pub proof fn law_the_obelisk_wants_variety(
    m: Engine,
    v: HandView,
    hands: HandsTable,
    dollars: i64,
    s: Streams,
    k: nat,
)
    requires
        by_itself(m),
        m.jokers[0].id == JokerId::Obelisk,
        1 < k < 0x1_0000,
        m.jokers[0].state.x_mult == Double::of(k as int),
    ensures
        ({
            let now = EngineHooks::at_before(m, v, hands, dollars, s).hooks.jokers[0].state.x_mult;
            let other = exists|h: HandType|
                h != v.hand_type && (#[trigger] hands.row(h)).visible && hands.row(h).played
                    >= hands.row(v.hand_type).played;
            now == if other {
                Double::of(k as int).plus(Double::frac(2, 10))
            } else {
                Double::of(1)
            }
        }),
{
    lemma_before(m, v, hands, dollars, s);
    reveal(effects::before_step);
    lemma_whole_order(1, k);
    let scan = effects::MOST_PLAYED_SCAN;
    let other = exists|h: HandType|
        h != v.hand_type && (#[trigger] hands.row(h)).visible && hands.row(h).played >= hands.row(
            v.hand_type,
        ).played;
    if effects::rivalled(hands, v.hand_type) {
        let i = choose|i: int|
            0 <= i < 12 && #[trigger] scan[i] != v.hand_type && hands.row(scan[i]).played
                >= hands.row(v.hand_type).played && hands.row(scan[i]).visible;
        assert(hands.row(scan[i]).visible);
    }
    if other {
        let h = choose|h: HandType|
            h != v.hand_type && (#[trigger] hands.row(h)).visible && hands.row(h).played
                >= hands.row(v.hand_type).played;
        let i = lemma_scanned(h);
        assert(scan[i] != v.hand_type);
    }
}

/// Every hand is looked at.
proof fn lemma_scanned(h: HandType) -> (i: int)
    ensures
        0 <= i < 12,
        effects::MOST_PLAYED_SCAN[i] == h,
{
    let scan = effects::MOST_PLAYED_SCAN;
    if h == scan[0] {
        0
    } else if h == scan[1] {
        1
    } else if h == scan[2] {
        2
    } else if h == scan[3] {
        3
    } else if h == scan[4] {
        4
    } else if h == scan[5] {
        5
    } else if h == scan[6] {
        6
    } else if h == scan[7] {
        7
    } else if h == scan[8] {
        8
    } else if h == scan[9] {
        9
    } else if h == scan[10] {
        10
    } else {
        11
    }
}

// ---- jokers that multiply by fractions -----------------------------------

/// Throwback multiplies by one and a quarter more for every skipped blind, the Steel
/// Joker by one and a fifth more for every Steel card.
#[verifier::rlimit(40)]
pub proof fn law_jokers_that_multiply_by_parts(
    m: Engine,
    v: HandView,
    hands: HandsTable,
    c: nat,
    t: nat,
    dollars: i64,
    triggered: bool,
    s: Streams,
)
    requires
        m.jokers.len() == 1,
        !m.jokers[0].debuffed,
        m.jokers[0].edition == Edition::Plain,
        !m.env.observatory,
        m.jokers[0].state.x_mult == Double::of(1),
        t < 0x1_0000_0000,
        c < 0x1_0000_0000,
    ensures
        ({
            let r = made_of(m, v, hands, c, t, dollars, triggered, s);
            let scaled = |x: Double|
                r.mult == Double::of(t as int).plus(Double::of(0)).times(x);
            let back = Double::of(1).plus(
                Double::of(m.env.skips as int).times(Double::frac(25, 100)),
            );
            let steel = Double::of(1).plus(
                Double::frac(2, 10).times(Double::of(m.env.steel_tally as int)),
            );
            &&& m.jokers[0].id == JokerId::Throwback && Double::of(1).below(back)
                && !scoring::is_zero(back) ==> scaled(back)
            &&& m.jokers[0].id == JokerId::SteelJoker && m.env.steel_tally > 0
                && !scoring::is_zero(steel) ==> scaled(steel)
        }),
{
    let e = Engine { out: crate::jokers::Outbox::empty(), ..m };
    law_who_acts(m.jokers, 0);
    reveal(effects::main_step);
    reveal(effects::own_effect);
    reveal_with_fuel(others_worth, 2);
    reveal_with_fuel(baseball, 2);
    lemma_whole_order(1, 1);
    let first = Tally {
        out: m.out,
        chips: Double::of(c as int),
        mult: Double::of(t as int),
        dollars,
        s,
    };
    let done = first.one(e, v, hands, triggered, 0);
    assert(first.from(e, v, hands, triggered, 0) == done.from(e, v, hands, triggered, 1));
    lemma_unobserved(Engine { out: done.out, ..m }, v, done.mult, m.keys.len());
}

/// Burnt Joker raises the hand of the first discard of a round by one level.
pub proof fn law_burnt_joker_raises_the_first_discard(
    m: Engine,
    cards: Seq<Card>,
    hook: bool,
    hands: HandsTable,
    mods: crate::handeval::EvalMods,
)
    requires
        by_itself(m),
    ensures
        EngineHooks::at_pre_discard(m, cards, hook, hands, mods).1 == (if m.jokers[0].id
            == JokerId::Burnt && !hook && m.env.discards_used_round <= 0 {
            hands.leveled_up(crate::handeval::played_hand(cards, mods), 1)
        } else {
            hands
        }),
{
    law_who_acts(m.jokers, 0);
    reveal_with_fuel(crate::jokers::engine::raised, 2);
    reveal_with_fuel(crate::jokers::engine::acting_as, 2);
}

/// Matador is paid 8 dollars for a refused hand.
pub proof fn law_matador_is_paid_for_refused_hands(m: Engine, v: HandView, dollars: i64)
    requires
        by_itself(m),
        0 <= dollars < 1_000_000_000,
    ensures
        EngineHooks::at_debuffed(m, v, true, dollars).1 == (if m.jokers[0].id == JokerId::Matador {
            dollars + 8
        } else {
            dollars as int
        }),
        EngineHooks::at_debuffed(m, v, false, dollars).1 == dollars,
{
    law_who_acts(m.jokers, 0);
    reveal_with_fuel(crate::jokers::engine::paid_eight, 2);
    reveal_with_fuel(crate::jokers::engine::acting_as, 2);
}

/// An 8 Ball makes a Tarot card for one 8 in four, where there is room.
pub proof fn law_eight_balls_make_tarots(
    m: Engine,
    other: JokerId,
    v: HandView,
    c: Card,
    lucky: bool,
    s: Streams,
)
    requires
        crate::laws_of_jokers::beside(m.jokers, other),
        m.jokers[0].id == JokerId::EightBall,
    ensures
        EngineHooks::on_play(m, v, c, lucky, s).1.out == (if m.out.has_room(m.env) && rank(c) == 8
            && s.unit("8ball"@).below(m.env.prob_normal.over(Double::of(4))) {
            m.out.and(OutEvent::CreateConsumable(ConsumableSet::Tarot, "8ba"))
        } else {
            m.out
        }),
{
    crate::laws_of_jokers::lemma_on_scoring(m, other, v, c, lucky, s);
    reveal(effects::play_step);
}

} // verus!
