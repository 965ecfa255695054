//! What hands and cards are worth, in whole numbers.
use crate::blinds::ActiveBlind;
use crate::cards::{Card, Edition, Enhancement, HandType, Seal};
use crate::double;
use crate::double::Double;
use crate::exact::{
    lemma_whole, lemma_whole_difference, lemma_whole_order, lemma_whole_product, lemma_whole_sum,
};
use crate::handeval;
use crate::jokers::engine::{observed, Engine};
use crate::jokers::EngineHooks;
use crate::key_marks::lemma_blind_marks;
use crate::laws_of_rounds::plain_blind;
use crate::rng::Streams;
use crate::scoring;
use crate::scoring::{
    play_value, scored_card, scored_cards, HandTableRow, HandView, HandsTable, JokerHooks,
    NoJokers, ScoreContext, Scoring,
};
use vstd::prelude::*;

verus! {

// ---- what hands are worth ------------------------------------------------

/// Whether a hand starts with some chips and mult, and gains so many of both with
/// each level.
pub open spec fn worth(ht: HandType, chips: int, mult: int, more_chips: int, more_mult: int) -> bool {
    &&& HandsTable::first().row(ht).level == 1
    &&& HandsTable::first().row(ht).chips == Double::of(chips)
    &&& HandsTable::first().row(ht).mult == Double::of(mult)
    &&& forall|row: HandTableRow, n: u32|
        1 <= n <= 1_000_000 ==> {
            let up = #[trigger] row.at_level(ht, n);
            &&& up.level == n
            &&& up.chips == Double::of(chips + more_chips * (n - 1))
            &&& up.mult == Double::of(mult + more_mult * (n - 1))
            &&& up.played == row.played
        }
}

proof fn lemma_leveled(base: nat, step: nat, level: nat, least: nat)
    requires
        0 < base <= 1000,
        0 < step <= 1000,
        1 <= level <= 1_000_000,
        least <= 1,
    ensures
        scoring::leveled(base as u32, step as u32, level as u32, least as int) == Double::of(
            base + step * (level - 1),
        ),
{
    if level == 1 {
        double::lemma_no_steps(base, step, least);
        assert(step * 0 == 0) by (nonlinear_arith);
    } else {
        let n = (level - 1) as nat;
        assert(0 < step * n <= 1_000_000_000) by (nonlinear_arith)
            requires
                0 < step <= 1000,
                0 < n < 1_000_000,
        ;
        lemma_whole_difference(level, 1);
        lemma_whole_product(step, n);
        lemma_whole_sum(base, step * n);
        lemma_whole_order(base + step * n, least);
        lemma_whole(base + step * n);
    }
}

proof fn lemma_worth(ht: HandType)
    ensures
        ({
            let v = ht.values();
            worth(
                ht,
                v.base_chips as int,
                v.base_mult as int,
                v.level_chips as int,
                v.level_mult as int,
            )
        }),
{
    let v = ht.values();
    reveal(crate::perhand::PerHand::at);
    assert forall|row: HandTableRow, n: u32| 1 <= n <= 1_000_000 implies {
        let up = #[trigger] row.at_level(ht, n);
        &&& up.level == n
        &&& up.chips == Double::of(v.base_chips + v.level_chips * (n - 1))
        &&& up.mult == Double::of(v.base_mult + v.level_mult * (n - 1))
        &&& up.played == row.played
    } by {
        lemma_leveled(v.base_mult as nat, v.level_mult as nat, n as nat, 1);
        lemma_leveled(v.base_chips as nat, v.level_chips as nat, n as nat, 0);
    }
}

/// The chips and the mult of the twelve hands, and what a level adds to them.
pub proof fn law_what_hands_are_worth()
    ensures
        worth(HandType::HighCard, 5, 1, 10, 1),
        worth(HandType::Pair, 10, 2, 15, 1),
        worth(HandType::TwoPair, 20, 2, 20, 1),
        worth(HandType::ThreeOfAKind, 30, 3, 20, 2),
        worth(HandType::Straight, 30, 4, 30, 3),
        worth(HandType::Flush, 35, 4, 15, 2),
        worth(HandType::FullHouse, 40, 4, 25, 2),
        worth(HandType::FourOfAKind, 60, 7, 30, 3),
        worth(HandType::StraightFlush, 100, 8, 40, 4),
        worth(HandType::FiveOfAKind, 120, 12, 35, 3),
        worth(HandType::FlushHouse, 140, 14, 40, 4),
        worth(HandType::FlushFive, 160, 16, 50, 3),
{
    lemma_worth(HandType::HighCard);
    lemma_worth(HandType::Pair);
    lemma_worth(HandType::TwoPair);
    lemma_worth(HandType::ThreeOfAKind);
    lemma_worth(HandType::Straight);
    lemma_worth(HandType::Flush);
    lemma_worth(HandType::FullHouse);
    lemma_worth(HandType::FourOfAKind);
    lemma_worth(HandType::StraightFlush);
    lemma_worth(HandType::FiveOfAKind);
    lemma_worth(HandType::FlushHouse);
    lemma_worth(HandType::FlushFive);
}

// ---- what cards are worth ------------------------------------------------

/// The chips of a card: 2 to 10 by its rank, 10 for a face, 11 for an Ace; 30 more
/// for a Bonus card, 50 for a Stone card whatever its rank; and what it gained for
/// good.
pub open spec fn card_chips(c: Card) -> int {
    (if c.enhancement == Enhancement::Stone {
        50
    } else {
        (if c.rank.0 == 14 {
            11
        } else if c.rank.0 >= 11 {
            10
        } else {
            c.rank.0 as int
        }) + (if c.enhancement == Enhancement::Bonus {
            30
        } else {
            0int
        })
    }) + c.perma_bonus
}

/// A card without a debuff, of a rank that there is.
pub open spec fn sound_card(c: Card) -> bool {
    !c.debuff && 2 <= c.rank.0 <= 14 && 0 <= c.perma_bonus <= 1_000_000
}

/// The score with one look at a card by itself.
pub open spec fn scored(c: Card, prob: Double, s: Streams, sc: scoring::Score) -> scoring::Score {
    play_value(c, prob, s).0.played_on(sc)
}

/// What a scoring card adds to the chips, the mult and the money: its chips; 4 mult
/// for a Mult card, twice the mult for a Glass card, 20 mult and 20 dollars for a
/// Lucky card that is lucky; 3 dollars for a Gold Seal; 50 chips if it is Foil, 10
/// mult if it is Holographic.
#[verifier::rlimit(40)]
pub proof fn law_what_cards_are_worth(
    c: Card,
    prob: Double,
    s: Streams,
    sc: scoring::Score,
    chips: nat,
    mult: nat,
)
    requires
        sound_card(c),
        chips < 0x1_0000_0000,
        0 < mult < 0x1_0000_0000,
        sc.chips == Double::of(chips as int),
        sc.mult == Double::of(mult as int),
        0 <= sc.dollars < 0x1_0000_0000,
        c.edition == Edition::Plain || c.edition == Edition::Foil || c.edition == Edition::Holo
            || c.edition == Edition::Negative,
    ensures
        ({
            let after = scored(c, prob, s, sc);
            let lucky = c.enhancement == Enhancement::Lucky;
            let lucky_mult = lucky && s.unit("lucky_mult"@).below(prob.over(Double::of(5)));
            let lucky_money = lucky && s.after("lucky_mult"@).unit("lucky_money"@).below(
                prob.over(Double::of(15)),
            );
            let raised = mult + (if c.enhancement == Enhancement::Mult {
                4int
            } else if lucky_mult {
                20
            } else {
                0
            });
            let factor = if c.enhancement == Enhancement::Glass {
                2int
            } else {
                1
            };
            &&& after.chips == Double::of(
                chips + card_chips(c) + (if c.edition == Edition::Foil {
                    50int
                } else {
                    0
                }),
            )
            &&& after.mult == Double::of(
                raised * factor + (if c.edition == Edition::Holo {
                    10int
                } else {
                    0
                }),
            )
            &&& after.dollars == sc.dollars + (if c.seal == Seal::Gold {
                3int
            } else {
                0
            }) + (if lucky_money {
                20int
            } else {
                0
            })
        }),
{
    let n = card_chips(c) as nat;
    let base = (card_chips(c) - c.perma_bonus) as nat;
    lemma_whole_sum(base, c.perma_bonus as nat);
    lemma_whole_order(0, n);
    lemma_whole_order(n, 0);
    lemma_whole_order(0, 0);
    lemma_whole_order(0, 4);
    lemma_whole_order(0, 20);
    lemma_whole_order(4, 0);
    lemma_whole_order(20, 0);
    lemma_whole_order(2, 0);
    lemma_whole_order(50, 0);
    lemma_whole_order(10, 0);
    lemma_whole_sum(chips, n);
    lemma_whole_sum(chips + n, 50);
    lemma_whole_sum(chips + n, 0);
    lemma_whole_sum(mult, 4);
    lemma_whole_sum(mult, 20);
    lemma_whole_sum(mult, 0);
    lemma_whole_product(mult, 2);
    lemma_whole_sum(mult, 10);
    lemma_whole_sum(mult + 4, 10);
    lemma_whole_sum(mult + 20, 10);
    lemma_whole_sum(mult * 2, 10);
    lemma_whole_sum(mult + 4, 0);
    lemma_whole_sum(mult + 20, 0);
    lemma_whole_sum(mult * 2, 0);
    lemma_whole_product(mult, 1);
    lemma_whole_product(mult + 4, 1);
    lemma_whole_product(mult + 20, 1);
    lemma_whole_product(mult * 2, 1);
    lemma_whole_product(mult + 10, 1);
    lemma_whole_product(mult + 14, 1);
    lemma_whole_product(mult + 30, 1);
    lemma_whole_product(mult * 2 + 10, 1);
}

/// A debuffed card adds nothing.
pub proof fn law_debuffed_cards_score_nothing<H: JokerHooks>(
    st: Scoring<H::M>,
    base: HandView,
    at: usize,
)
    requires
        st.play[at as int].debuff,
    ensures
        scored_card::<H>(st, base, at).chips == st.chips,
        scored_card::<H>(st, base, at).mult == st.mult,
        scored_card::<H>(st, base, at).ctx.dollars == st.ctx.dollars,
{
}

/// A Red Seal has a card scored once more.
pub proof fn law_red_seals_score_twice(st: Scoring<()>, base: HandView, at: usize)
    requires
        !st.play[at as int].debuff,
        at < st.play.len(),
    ensures
        ({
            let once = scoring::scored_once::<NoJokers>(st, base, at);
            scored_card::<NoJokers>(st, base, at) == if st.play[at as int].seal == Seal::Red {
                scoring::scored_once::<NoJokers>(once, base, at)
            } else {
                once
            }
        }),
{
    reveal_with_fuel(scoring::scored_times, 3);
}

/// A held Steel card multiplies the mult by one and a half; every other held card
/// leaves the score as it is.
pub proof fn law_what_held_cards_are_worth(c: Card, sc: scoring::Score)
    ensures
        scoring::held_value(c).held_on(sc).chips == sc.chips,
        scoring::held_value(c).held_on(sc).dollars == sc.dollars.wrapping_add(0),
        c.enhancement != Enhancement::Steel || c.debuff ==> scoring::held_value(c).held_on(sc).mult
            == sc.mult,
        c.enhancement == Enhancement::Steel && !c.debuff ==> scoring::held_value(c).held_on(
            sc,
        ).mult == sc.mult.times(Double::frac(15, 10)),
{
    lemma_whole_order(0, 0);
    crate::exact::lemma_more_than_nothing();
}

// ---- a hand of plain cards -----------------------------------------------

/// The chips of the cards in some places, together.
pub open spec fn chips_of(cards: Seq<Card>, places: Seq<usize>) -> int
    decreases places.len(),
{
    if places.len() == 0 {
        0
    } else {
        chips_of(cards, places.drop_last()) + card_chips(cards[places.last() as int])
    }
}

/// A card without anything on it.
pub open spec fn plain(c: Card) -> bool {
    c.enhancement == Enhancement::Plain && c.edition == Edition::Plain && c.seal == Seal::Plain
        && !c.debuff && 2 <= c.rank.0 <= 14 && c.perma_bonus == 0
}

proof fn lemma_plain_cards(st: Scoring<Engine>, base: HandView, n: nat, chips: nat, mult: nat)
    requires
        st.hooks.jokers.len() == 0,
        n <= base.scoring.len() <= 1000,
        handeval::places_below(base.scoring, st.play.len()),
        forall|i: int| 0 <= i < st.play.len() ==> plain(#[trigger] st.play[i]),
        chips < 0x1_0000,
        0 < mult < 0x1_0000,
        st.chips == Double::of(chips as int),
        st.mult == Double::of(mult as int),
        0 <= st.ctx.dollars < 0x1_0000_0000,
    ensures
        scored_cards::<EngineHooks>(st, base, n) == (Scoring {
            chips: Double::of(chips + chips_of(st.play, base.scoring.take(n as int))),
            ..st
        }),
        0 <= chips_of(st.play, base.scoring.take(n as int)) <= 11 * n,
    decreases n,
{
    if n > 0 {
        lemma_plain_cards(st, base, (n - 1) as nat, chips, mult);
        let before = scored_cards::<EngineHooks>(st, base, (n - 1) as nat);
        let places = base.scoring.take(n as int);
        assert(places.drop_last() =~= base.scoring.take(n - 1));
        let at = base.scoring[n - 1];
        let card = before.play[at as int];
        assert(plain(st.play[at as int]));
        let sum = (chips + chips_of(st.play, places.drop_last())) as nat;
        let sc = scoring::Score {
            chips: before.chips,
            mult: before.mult,
            dollars: before.ctx.dollars,
        };
        law_what_cards_are_worth(card, before.ctx.prob_normal, before.s, sc, sum, mult);
        assert(crate::jokers::engine::plays_again(
            before.hooks,
            before.seen(base),
            card,
            0,
        ) == 0);
        reveal_with_fuel(scoring::scored_times, 2);
        let none: Seq<scoring::CardEffect> = seq![];
        assert(EngineHooks::on_play(
            before.hooks,
            before.seen(base),
            card,
            false,
            before.s,
        ).0 == none);
    } else {
        assert(base.scoring.take(0).len() == 0);
    }
}

proof fn lemma_plain_held(st: Scoring<Engine>, base: HandView, n: nat)
    requires
        st.hooks.jokers.len() == 0,
        n <= st.held.len(),
        forall|i: int|
            0 <= i < st.held.len() ==> (#[trigger] st.held[i]).enhancement != Enhancement::Steel,
    ensures
        scoring::held_cards::<EngineHooks>(st, base, n) == st,
    decreases n,
{
    if n > 0 {
        lemma_plain_held(st, base, (n - 1) as nat);
        let c = st.held[n - 1];
        lemma_whole_order(0, 0);
        assert(c.enhancement != Enhancement::Steel);
        assert(EngineHooks::on_hold(st.hooks, st.seen(base), c, st.s).0.len() == 0);
        law_what_held_cards_are_worth(c, st.score());
        assert(scoring::held_value(c).nothing());
    }
}

proof fn lemma_unjudged(ctx: ScoreContext, played: nat, ht: HandType)
    requires
        ctx.blind is None || plain_blind(ctx.blind->0),
    ensures
        !scoring::judged(ctx, played, ht).1,
        scoring::judged(ctx, played, ht).0.hands == ctx.hands.after_play(ht),
        scoring::judged(ctx, played, ht).0.dollars == ctx.dollars,
        scoring::judged(ctx, played, ht).0.prob_normal == ctx.prob_normal,
        scoring::judged(ctx, played, ht).0.blind matches Some(b) ==> !b.halves(),
{
    reveal(ActiveBlind::verdict);
    lemma_blind_marks();
}

/// Plain cards without jokers, against no blind or a small one: the hand scores its
/// chips and the chips of the cards that score, times its mult.
#[verifier::rlimit(40)]
pub proof fn law_plain_cards_score_their_chips(
    ctx: ScoreContext,
    play: Seq<Card>,
    held: Seq<Card>,
    hooks: Engine,
    s: Streams,
    chips: nat,
    mult: nat,
)
    requires
        hooks.jokers.len() == 0,
        !hooks.env.observatory,
        play.len() <= 5,
        ctx.blind is None || plain_blind(ctx.blind->0),
        forall|i: int| 0 <= i < play.len() ==> plain(#[trigger] play[i]),
        forall|i: int|
            0 <= i < held.len() ==> (#[trigger] held[i]).enhancement != Enhancement::Steel,
        chips < 0x1_0000,
        0 < mult < 0x1_0000,
        0 <= ctx.dollars < 0x1_0000_0000,
        ctx.hands.row(handeval::played_hand(play, ctx.mods)).chips == Double::of(chips as int),
        ctx.hands.row(handeval::played_hand(play, ctx.mods)).mult == Double::of(mult as int),
    ensures
        ({
            let p = scoring::played::<EngineHooks>(ctx, play, held, hooks, s);
            let sum = chips + chips_of(play, scoring::scoring_places(play, ctx.mods, false));
            &&& p.hand_type == handeval::played_hand(play, ctx.mods)
            &&& !p.debuffed
            &&& p.end.chips == Double::of(sum)
            &&& p.end.mult == Double::of(mult as int)
            &&& p.end.ctx.dollars == ctx.dollars
            &&& p.destroyed.len() == 0
            &&& scoring::final_score(p.end.chips, p.end.mult) == Double::of(sum * mult)
        }),
{
    let ht = handeval::played_hand(play, ctx.mods);
    assert(!EngineHooks::all_cards_score(hooks));
    let base = scoring::hand_shown(play, ctx.mods, false);
    scoring::law_scoring_cards_are_played(play, ctx.mods, false);
    scoring::law_scoring_cards_ascend(play, ctx.mods, false);
    assert(base.scoring.no_duplicates()) by {
        assert forall|i: int, j: int|
            0 <= i < base.scoring.len() && 0 <= j < base.scoring.len() && i
                != j implies base.scoring[i] != base.scoring[j] by {
            if i < j {
                assert(base.scoring[i] < base.scoring[j]);
            } else {
                assert(base.scoring[j] < base.scoring[i]);
            }
        }
    }
    handeval::lemma_distinct_places(base.scoring, play.len());
    lemma_unjudged(ctx, play.len(), ht);
    let ctx1 = scoring::judged(ctx, play.len(), ht).0;
    let zero = Double::of(0);
    let st = Scoring { hooks, ctx: ctx1, play, held, chips: zero, mult: zero, s };
    let o = scoring::opened::<EngineHooks>(st, base);
    crate::perhand::law_with_changes_one_hand(
        ctx.hands.rows,
        ht,
        ht,
        ctx.hands.row(ht).once_more(),
    );
    assert(o.chips == Double::of(chips as int) && o.mult == Double::of(mult as int));
    assert(o.hooks == hooks && o.play == play && o.held == held);
    lemma_plain_cards(o, base, base.scoring.len(), chips, mult);
    assert(base.scoring.take(base.scoring.len() as int) =~= base.scoring);
    let c = scored_cards::<EngineHooks>(o, base, base.scoring.len());
    lemma_plain_held(c, base, held.len());
    let sum = (chips + chips_of(play, base.scoring)) as nat;
    lemma_unobserved(hooks, c.seen(base), c.mult, hooks.keys.len());
    let t = scoring::totalled::<EngineHooks>(o, base);
    assert(t.chips == Double::of(sum as int) && t.mult == Double::of(mult as int));
    assert(t.hooks == hooks);
    lemma_unbroken(t, base, base.scoring.len());
    assert(sum * mult < 0x20_0000_0000_0000) by (nonlinear_arith)
        requires
            sum < 0x2_0000,
            mult < 0x1_0000,
    ;
    scoring::law_whole_scores(sum, mult);
    assert(hooks.after_from(0, 0) == hooks);
}

proof fn lemma_unobserved(e: Engine, v: HandView, mult: Double, n: nat)
    requires
        !e.env.observatory,
    ensures
        observed(e, v, mult, n) == mult,
    decreases n,
{
    if n > 0 {
        lemma_unobserved(e, v, mult, (n - 1) as nat);
    }
}

proof fn lemma_unbroken(st: Scoring<Engine>, base: HandView, n: nat)
    requires
        st.hooks.jokers.len() == 0,
        n <= base.scoring.len(),
        handeval::places_below(base.scoring, st.play.len()),
        forall|i: int| 0 <= i < st.play.len() ==> plain(#[trigger] st.play[i]),
    ensures
        scoring::broken::<EngineHooks>(st, base, n).destroyed.len() == 0,
        scoring::broken::<EngineHooks>(st, base, n).hooks == st.hooks,
    decreases n,
{
    if n > 0 {
        lemma_unbroken(st, base, (n - 1) as nat);
        assert(plain(st.play[base.scoring[n - 1] as int]));
    }
}

} // verus!
