//! What each joker does in each window of a run.
//!
//! Every function takes the joker that acts, after copies are resolved, and
//! whether it acts through a copy (`bp`).
use crate::cards::{Card, Enhancement, HandType, Suit};
use crate::double::Double;
use crate::items::{ConsumableSet, JokerId};
use crate::rng::{RngState, Streams};
use crate::scoring::{BeforeCtx, CardEffect, HandCtx, HandView, HandsTable};
use crate::scoring;
use crate::shop::OwnedJoker;
use super::{card_is_face, JokerEnv, JokerOutbox, JokerState, MainEffect, OutEvent, Outbox};
use vstd::prelude::*;

verus! {

/// The order in which the hands are looked through for the most played one.
pub const MOST_PLAYED_SCAN: [HandType; 12] = [
    HandType::Pair,
    HandType::HighCard,
    HandType::FlushFive,
    HandType::FlushHouse,
    HandType::FiveOfAKind,
    HandType::StraightFlush,
    HandType::FourOfAKind,
    HandType::FullHouse,
    HandType::Flush,
    HandType::Straight,
    HandType::ThreeOfAKind,
    HandType::TwoPair,
];

/// The hand that a joker waits for.
pub open spec fn awaited(id: JokerId) -> Option<HandType> {
    match id {
        JokerId::Jolly => Some(HandType::Pair),
        JokerId::Sly => Some(HandType::Pair),
        JokerId::Zany => Some(HandType::ThreeOfAKind),
        JokerId::Wily => Some(HandType::ThreeOfAKind),
        JokerId::Mad => Some(HandType::TwoPair),
        JokerId::Clever => Some(HandType::TwoPair),
        JokerId::Crazy => Some(HandType::Straight),
        JokerId::Devious => Some(HandType::Straight),
        JokerId::Droll => Some(HandType::Flush),
        JokerId::Crafty => Some(HandType::Flush),
        JokerId::Duo => Some(HandType::Pair),
        JokerId::Trio => Some(HandType::ThreeOfAKind),
        JokerId::Family => Some(HandType::FourOfAKind),
        JokerId::Order => Some(HandType::Straight),
        JokerId::Tribe => Some(HandType::Flush),
        _ => None,
    }
}

pub(crate) fn joker_type(id: JokerId) -> (r: Option<HandType>)
    ensures
        r == awaited(id),
{
    match id {
        JokerId::Jolly => Some(HandType::Pair),
        JokerId::Sly => Some(HandType::Pair),
        JokerId::Zany => Some(HandType::ThreeOfAKind),
        JokerId::Wily => Some(HandType::ThreeOfAKind),
        JokerId::Mad => Some(HandType::TwoPair),
        JokerId::Clever => Some(HandType::TwoPair),
        JokerId::Crazy => Some(HandType::Straight),
        JokerId::Devious => Some(HandType::Straight),
        JokerId::Droll => Some(HandType::Flush),
        JokerId::Crafty => Some(HandType::Flush),
        JokerId::Duo => Some(HandType::Pair),
        JokerId::Trio => Some(HandType::ThreeOfAKind),
        JokerId::Family => Some(HandType::FourOfAKind),
        JokerId::Order => Some(HandType::Straight),
        JokerId::Tribe => Some(HandType::Flush),
        _ => None,
    }
}

/// The multiplier for the awaited hand.
pub open spec fn hand_mult(id: JokerId) -> int {
    match id {
        JokerId::Jolly => 8,
        JokerId::Zany => 12,
        JokerId::Crazy => 12,
        JokerId::Mad => 10,
        JokerId::Droll => 10,
        _ => 0,
    }
}

fn t_mult(id: JokerId) -> (r: i64)
    ensures
        r == hand_mult(id),
{
    match id {
        JokerId::Jolly => 8,
        JokerId::Zany => 12,
        JokerId::Crazy => 12,
        JokerId::Mad => 10,
        JokerId::Droll => 10,
        _ => 0,
    }
}

/// The chips for the awaited hand.
pub open spec fn hand_chips(id: JokerId) -> int {
    match id {
        JokerId::Sly => 50,
        JokerId::Wily => 100,
        JokerId::Devious => 100,
        JokerId::Clever => 80,
        JokerId::Crafty => 80,
        _ => 0,
    }
}

fn t_chips(id: JokerId) -> (r: i64)
    ensures
        r == hand_chips(id),
{
    match id {
        JokerId::Sly => 50,
        JokerId::Wily => 100,
        JokerId::Devious => 100,
        JokerId::Clever => 80,
        JokerId::Crafty => 80,
        _ => 0,
    }
}

/// The suit that a joker adds multiplier for.
pub open spec fn favoured_suit(id: JokerId) -> Option<Suit> {
    match id {
        JokerId::GreedyJoker => Some(Suit::Diamonds),
        JokerId::LustyJoker => Some(Suit::Hearts),
        JokerId::WrathfulJoker => Some(Suit::Spades),
        JokerId::GluttenousJoker => Some(Suit::Clubs),
        _ => None,
    }
}

fn suit_mult_suit(id: JokerId) -> (r: Option<Suit>)
    ensures
        r == favoured_suit(id),
{
    match id {
        JokerId::GreedyJoker => Some(Suit::Diamonds),
        JokerId::LustyJoker => Some(Suit::Hearts),
        JokerId::WrathfulJoker => Some(Suit::Spades),
        JokerId::GluttenousJoker => Some(Suit::Clubs),
        _ => None,
    }
}

/// Of the first `n` hands of the scan, those that are visible and not `but`.
pub open spec fn visible_hands(hands: HandsTable, but: Option<HandType>, n: nat) -> Seq<HandType>
    decreases n,
{
    if n == 0 {
        seq![]
    } else {
        let before = visible_hands(hands, but, (n - 1) as nat);
        let ht = MOST_PLAYED_SCAN[n - 1];
        if hands.row(ht).visible && but != Some(ht) {
            before.push(ht)
        } else {
            before
        }
    }
}

/// The hand drawn for a To Do List. Where no hand can be drawn it keeps the
/// weakest one.
pub open spec fn drawn_hand(s: Streams, pool: Seq<HandType>) -> HandType {
    if pool.len() == 0 {
        HandType::HighCard
    } else {
        pool[s.place("to_do"@, pool.len())]
    }
}

pub(crate) fn hand_pool(hands: &HandsTable, but: Option<HandType>) -> (r: Vec<HandType>)
    ensures
        r@ == visible_hands(*hands, but, 12),
{
    let mut pool: Vec<HandType> = Vec::new();
    let mut i: usize = 0;
    while i < 12
        invariant
            i <= 12,
            pool@ == visible_hands(*hands, but, i as nat),
        decreases 12 - i,
    {
        let ht = MOST_PLAYED_SCAN[i];
        let excluded = match but {
            Some(b) => b == ht,
            None => false,
        };
        if hands.get(ht).visible && !excluded {
            pool.push(ht);
        }
        i = i + 1;
    }
    pool
}

fn draw_hand(rng: &mut RngState, hands: &HandsTable, but: Option<HandType>) -> (r: HandType)
    ensures
        r == drawn_hand(old(rng)@, visible_hands(*hands, but, 12)),
        final(rng)@ == old(rng)@.after("to_do"@),
{
    let pool = hand_pool(hands, but);
    let k: usize = rng.random_place("to_do", pool.len());
    if pool.len() == 0 {
        HandType::HighCard
    } else {
        pool[k]
    }
}

/// Draw the hand of a new To Do List.
pub(crate) fn roll_to_do_hand(rng: &mut RngState, hands: &HandsTable) -> (r: HandType)
    ensures
        r == drawn_hand(old(rng)@, visible_hands(*hands, None, 12)),
        final(rng)@ == old(rng)@.after("to_do"@),
{
    draw_hand(rng, hands, None)
}

/// Whether a roll of one in `odds` comes true.
pub open spec fn chance(s: Streams, key: Seq<char>, prob: Double, odds: int) -> bool {
    s.unit(key).below(prob.over(Double::of(odds)))
}

pub(crate) fn roll(rng: &mut RngState, key: &str, prob: Double, odds: i64) -> (r: bool)
    ensures
        r == chance(old(rng)@, key@, prob, odds as int),
        final(rng)@ == old(rng)@.after(key@),
{
    rng.random(key).lt(prob.div(Double::from_i64(odds)))
}

impl OwnedJoker {
    /// The joker with more multiplier.
    pub open spec fn gain_mult(self, n: int) -> OwnedJoker {
        OwnedJoker {
            state: JokerState { mult: self.state.mult.plus(Double::of(n)), ..self.state },
            ..self
        }
    }

    /// The joker with more chips.
    pub open spec fn gain_chips(self, n: int) -> OwnedJoker {
        OwnedJoker {
            state: JokerState { chips: self.state.chips.plus(Double::of(n)), ..self.state },
            ..self
        }
    }

    /// The joker with a larger factor.
    pub open spec fn gain_x(self, x: Double) -> OwnedJoker {
        OwnedJoker {
            state: JokerState { x_mult: self.state.x_mult.plus(x), ..self.state },
            ..self
        }
    }

    /// The joker with a larger counter.
    pub open spec fn gain_extra(self, n: int) -> OwnedJoker {
        OwnedJoker {
            state: JokerState { extra: self.state.extra.plus(Double::of(n)), ..self.state },
            ..self
        }
    }

    pub open spec fn with_mult(self, x: Double) -> OwnedJoker {
        OwnedJoker { state: JokerState { mult: x, ..self.state }, ..self }
    }

    pub open spec fn with_chips(self, x: Double) -> OwnedJoker {
        OwnedJoker { state: JokerState { chips: x, ..self.state }, ..self }
    }

    pub open spec fn with_x(self, x: Double) -> OwnedJoker {
        OwnedJoker { state: JokerState { x_mult: x, ..self.state }, ..self }
    }

    pub open spec fn with_extra(self, x: Double) -> OwnedJoker {
        OwnedJoker { state: JokerState { extra: x, ..self.state }, ..self }
    }

    /// The joker with its factor back at one, if it is above.
    pub open spec fn reset_x(self) -> OwnedJoker {
        if Double::of(1).below(self.state.x_mult) {
            self.with_x(Double::of(1))
        } else {
            self
        }
    }

    fn drop_x(&mut self)
        ensures
            *final(self) == old(self).reset_x(),
    {
        if Double::from_i64(1).lt(self.state.x_mult) {
            self.state.x_mult = Double::from_i64(1);
        }
    }
}

// ---- before a hand scores ------------------------------------------------

/// Whether any of the first `n` scoring cards is a face.
pub open spec fn any_face(v: HandView, pareidolia: bool, n: nat) -> bool {
    exists|k: int|
        0 <= k < n && super::is_face(v.full_hand[(#[trigger] v.scoring[k]) as int], pareidolia)
}

/// The played cards once the first `n` scoring faces are turned to gold.
pub open spec fn gilded(v: HandView, pareidolia: bool, n: nat) -> Seq<Card>
    decreases n,
{
    if n == 0 {
        v.full_hand
    } else {
        let before = gilded(v, pareidolia, (n - 1) as nat);
        let i = v.scoring[n - 1] as int;
        if super::is_face(before[i], pareidolia) {
            before.update(i, Card { enhancement: Enhancement::Gold, ..before[i] })
        } else {
            before
        }
    }
}

/// The played cards once the first `n` scoring cards are drained, and how many
/// were enhanced.
pub open spec fn drained(v: HandView, n: nat) -> (Seq<Card>, nat)
    decreases n,
{
    if n == 0 {
        (v.full_hand, 0)
    } else {
        let before = drained(v, (n - 1) as nat);
        let i = v.scoring[n - 1] as int;
        let c = before.0[i];
        if c.enhancement != Enhancement::Plain && !c.debuff {
            (before.0.update(i, Card { enhancement: Enhancement::Plain, ..c }), before.1 + 1)
        } else {
            before
        }
    }
}

/// Whether some other visible hand was played at least as often.
pub open spec fn rivalled(hands: HandsTable, ht: HandType) -> bool {
    exists|k: int|
        0 <= k < 12 && #[trigger] MOST_PLAYED_SCAN[k] != ht && hands.row(
            MOST_PLAYED_SCAN[k],
        ).played >= hands.row(ht).played && hands.row(MOST_PLAYED_SCAN[k]).visible
}

/// What a joker does before a hand scores.
#[verifier::ext_equal]
pub struct BeforeStep {
    pub j: OwnedJoker,
    pub full_hand: Seq<Card>,
    pub out: Outbox,
    pub dollars: i64,
    pub s: Streams,
    /// The played hand goes up a level.
    pub level_up: bool,
    /// The played card is copied into the hand.
    pub dna_copy: bool,
}

#[verifier::opaque]
pub open spec fn before_step(
    j: OwnedJoker,
    bp: bool,
    v: HandView,
    pareidolia: bool,
    hands: HandsTable,
    env: JokerEnv,
    out: Outbox,
    dollars: i64,
    s: Streams,
) -> BeforeStep {
    let idle = BeforeStep {
        j,
        full_hand: v.full_hand,
        out,
        dollars,
        s,
        level_up: false,
        dna_copy: false,
    };
    match j.id {
        JokerId::Trousers => if !bp && ((v.holds)(HandType::TwoPair) || (v.holds)(
            HandType::FullHouse,
        )) {
            BeforeStep { j: j.gain_mult(2), ..idle }
        } else {
            idle
        },
        JokerId::Space => BeforeStep {
            level_up: chance(s, "space"@, env.prob_normal, 4),
            s: s.after("space"@),
            ..idle
        },
        JokerId::Square => if !bp && v.full_hand.len() == 4 {
            BeforeStep { j: j.gain_chips(4), ..idle }
        } else {
            idle
        },
        JokerId::Runner => if !bp && (v.holds)(HandType::Straight) {
            BeforeStep { j: j.gain_chips(15), ..idle }
        } else {
            idle
        },
        JokerId::MidasMask => if !bp {
            BeforeStep { full_hand: gilded(v, pareidolia, v.scoring.len()), ..idle }
        } else {
            idle
        },
        JokerId::Vampire => if !bp {
            let d = drained(v, v.scoring.len());
            BeforeStep {
                full_hand: d.0,
                j: if d.1 > 0 {
                    j.gain_x(Double::frac(1, 10).times(Double::of(d.1 as int)))
                } else {
                    j
                },
                ..idle
            }
        } else {
            idle
        },
        JokerId::TodoList => if v.hand_type == j.state.to_do_hand {
            BeforeStep { dollars: dollars.wrapping_add(4), out: out.paid(4), ..idle }
        } else {
            idle
        },
        JokerId::Dna => BeforeStep {
            dna_copy: env.hands_played_round == 0 && v.full_hand.len() == 1,
            ..idle
        },
        JokerId::RideTheBus => if bp {
            idle
        } else if any_face(v, pareidolia, v.scoring.len()) {
            BeforeStep { j: j.with_mult(Double::of(0)), ..idle }
        } else {
            BeforeStep { j: j.gain_mult(1), ..idle }
        },
        JokerId::Obelisk => if bp {
            idle
        } else if rivalled(hands, v.hand_type) {
            BeforeStep { j: j.gain_x(Double::frac(2, 10)), ..idle }
        } else {
            BeforeStep { j: j.reset_x(), ..idle }
        },
        JokerId::GreenJoker => if !bp {
            BeforeStep { j: j.gain_mult(1), ..idle }
        } else {
            idle
        },
        _ => idle,
    }
}

/// What the dispatcher has to do after a joker acted before a hand.
#[derive(Debug, Clone, Copy, PartialEq, Eq, Structural)]
pub(super) struct BeforeResult {
    pub level_up: bool,
    pub dna_copy: bool,
}

fn gild(ctx: &mut BeforeCtx, pareidolia: bool)
    requires
        old(ctx)@.valid(),
    ensures
        final(ctx).full_hand@ == gilded(old(ctx)@, pareidolia, old(ctx)@.scoring.len()),
        final(ctx).full_hand@.len() == old(ctx).full_hand@.len(),
        final(ctx).scoring == old(ctx).scoring,
        final(ctx).hand_type == old(ctx).hand_type,
        final(ctx).held == old(ctx).held,
        final(ctx).poker_hands == old(ctx).poker_hands,
{
    let ghost v = ctx@;
    let mut k: usize = 0;
    while k < ctx.scoring.len()
        invariant
            k <= ctx.scoring.len(),
            v.valid(),
            v.scoring == ctx.scoring@,
            v.full_hand.len() == ctx.full_hand@.len(),
            ctx.full_hand@ == gilded(v, pareidolia, k as nat),
            ctx.scoring == old(ctx).scoring,
            ctx.hand_type == old(ctx).hand_type,
            ctx.held == old(ctx).held,
            ctx.poker_hands == old(ctx).poker_hands,
        decreases ctx.scoring.len() - k,
    {
        let i: usize = ctx.scoring[k];
        let mut c = ctx.full_hand[i];
        if card_is_face(&c, pareidolia) {
            c.enhancement = Enhancement::Gold;
            ctx.full_hand.set(i, c);
        }
        k = k + 1;
    }
}

fn drain(ctx: &mut BeforeCtx) -> (r: usize)
    requires
        old(ctx)@.valid(),
    ensures
        (final(ctx).full_hand@, r as nat) == drained(old(ctx)@, old(ctx)@.scoring.len()),
        final(ctx).full_hand@.len() == old(ctx).full_hand@.len(),
        final(ctx).scoring == old(ctx).scoring,
        final(ctx).hand_type == old(ctx).hand_type,
        final(ctx).held == old(ctx).held,
        final(ctx).poker_hands == old(ctx).poker_hands,
{
    let ghost v = ctx@;
    let mut n: usize = 0;
    let mut k: usize = 0;
    while k < ctx.scoring.len()
        invariant
            k <= ctx.scoring.len(),
            n <= k,
            v.valid(),
            v.scoring == ctx.scoring@,
            v.full_hand.len() == ctx.full_hand@.len(),
            (ctx.full_hand@, n as nat) == drained(v, k as nat),
            ctx.scoring == old(ctx).scoring,
            ctx.hand_type == old(ctx).hand_type,
            ctx.held == old(ctx).held,
            ctx.poker_hands == old(ctx).poker_hands,
        decreases ctx.scoring.len() - k,
    {
        let i: usize = ctx.scoring[k];
        let mut c = ctx.full_hand[i];
        if c.enhancement != Enhancement::Plain && !c.debuff {
            n = n + 1;
            c.enhancement = Enhancement::Plain;
            ctx.full_hand.set(i, c);
        }
        k = k + 1;
    }
    n
}

fn scores_face(ctx: &BeforeCtx, pareidolia: bool) -> (r: bool)
    requires
        ctx@.valid(),
    ensures
        r == any_face(ctx@, pareidolia, ctx@.scoring.len()),
{
    let mut k: usize = 0;
    while k < ctx.scoring.len()
        invariant
            k <= ctx.scoring.len(),
            ctx@.valid(),
            forall|m: int|
                0 <= m < k ==> !super::is_face(
                    ctx@.full_hand[(#[trigger] ctx@.scoring[m]) as int],
                    pareidolia,
                ),
        decreases ctx.scoring.len() - k,
    {
        assert(ctx@.scoring[k as int] == ctx.scoring@[k as int]);
        if card_is_face(&ctx.full_hand[ctx.scoring[k]], pareidolia) {
            return true;
        }
        k = k + 1;
    }
    false
}

fn has_rival(hands: &HandsTable, ht: HandType) -> (r: bool)
    ensures
        r == rivalled(*hands, ht),
{
    let most: u32 = hands.get(ht).played;
    let mut k: usize = 0;
    while k < 12
        invariant
            k <= 12,
            most == hands.row(ht).played,
            forall|m: int|
                0 <= m < k ==> !(#[trigger] MOST_PLAYED_SCAN[m] != ht && hands.row(
                    MOST_PLAYED_SCAN[m],
                ).played >= most && hands.row(MOST_PLAYED_SCAN[m]).visible),
        decreases 12 - k,
    {
        let other = MOST_PLAYED_SCAN[k];
        assert(other == MOST_PLAYED_SCAN[k as int]);
        let row = hands.get(other);
        if other != ht && row.played >= most && row.visible {
            return true;
        }
        k = k + 1;
    }
    false
}

pub(super) fn before_hand(
    j: &mut OwnedJoker,
    bp: bool,
    ctx: &mut BeforeCtx,
    pareidolia: bool,
    hands: &HandsTable,
    env: &JokerEnv,
    out: &mut JokerOutbox,
    dollars: &mut i64,
    rng: &mut RngState,
) -> (r: BeforeResult)
    requires
        old(ctx)@.valid(),
    ensures
        ({
            let step = before_step(
                *old(j),
                bp,
                old(ctx)@,
                pareidolia,
                *hands,
                *env,
                old(out)@,
                *old(dollars),
                old(rng)@,
            );
            &&& *final(j) == step.j
            &&& final(ctx).full_hand@ == step.full_hand
            &&& final(out)@ == step.out
            &&& *final(dollars) == step.dollars
            &&& final(rng)@ == step.s
            &&& r.level_up == step.level_up
            &&& r.dna_copy == step.dna_copy
        }),
        r.dna_copy ==> old(ctx).full_hand@.len() == 1,
        final(ctx).full_hand@.len() == old(ctx).full_hand@.len(),
        final(ctx).scoring == old(ctx).scoring,
        final(ctx).hand_type == old(ctx).hand_type,
        final(ctx).held == old(ctx).held,
        final(ctx).poker_hands == old(ctx).poker_hands,
        final(j).id == old(j).id,
        final(j).sort_id == old(j).sort_id,
{
    proof {
        reveal(before_step);
    }
    let mut res = BeforeResult { level_up: false, dna_copy: false };
    match j.id {
        JokerId::Trousers => {
            if !bp && (ctx.poker_hands.has(HandType::TwoPair) || ctx.poker_hands.has(
                HandType::FullHouse,
            )) {
                j.state.mult = j.state.mult.add(Double::from_i64(2));
            }
        },
        JokerId::Space => {
            res.level_up = roll(rng, "space", env.prob_normal, 4);
        },
        JokerId::Square => {
            if !bp && ctx.full_hand.len() == 4 {
                j.state.chips = j.state.chips.add(Double::from_i64(4));
            }
        },
        JokerId::Runner => {
            if !bp && ctx.poker_hands.has(HandType::Straight) {
                j.state.chips = j.state.chips.add(Double::from_i64(15));
            }
        },
        JokerId::MidasMask => {
            if !bp {
                gild(ctx, pareidolia);
            }
        },
        JokerId::Vampire => {
            if !bp {
                let n: usize = drain(ctx);
                if n > 0 {
                    j.state.x_mult = j.state.x_mult.add(
                        Double::lit(1, 10).mul(Double::from_u64(n as u64)),
                    );
                }
            }
        },
        JokerId::TodoList => {
            if ctx.hand_type == j.state.to_do_hand {
                *dollars = dollars.wrapping_add(4);
                out.pay(4);
            }
        },
        JokerId::Dna => {
            if env.hands_played_round == 0 && ctx.full_hand.len() == 1 {
                res.dna_copy = true;
            }
        },
        JokerId::RideTheBus => {
            if !bp {
                if scores_face(ctx, pareidolia) {
                    j.state.mult = Double::from_i64(0);
                } else {
                    j.state.mult = j.state.mult.add(Double::from_i64(1));
                }
            }
        },
        JokerId::Obelisk => {
            if !bp {
                if has_rival(hands, ctx.hand_type) {
                    j.state.x_mult = j.state.x_mult.add(Double::lit(2, 10));
                } else {
                    j.drop_x();
                }
            }
        },
        JokerId::GreenJoker => {
            if !bp {
                j.state.mult = j.state.mult.add(Double::from_i64(1));
            }
        },
        _ => {},
    }
    res
}

// ---- retriggers ----------------------------------------------------------

/// How often more a scoring card is looked at.
pub open spec fn extra_plays(
    j: OwnedJoker,
    v: HandView,
    card: Card,
    pareidolia: bool,
    env: JokerEnv,
) -> u32 {
    match j.id {
        JokerId::SockAndBuskin => if super::is_face(card, pareidolia) {
            1
        } else {
            0
        },
        JokerId::HangingChad => if v.scoring.len() > 0
            && v.full_hand[v.scoring[0] as int].sort_id == card.sort_id {
            2
        } else {
            0
        },
        JokerId::Dusk => if env.hands_left == 0 {
            1
        } else {
            0
        },
        JokerId::Selzer => 1,
        JokerId::Hack => if card.eval_id() matches Some(n) && 2 <= n <= 5 {
            1
        } else {
            0
        },
        _ => 0,
    }
}

pub(super) fn repetition_play(
    j: &OwnedJoker,
    ctx: &HandCtx,
    card: &Card,
    pareidolia: bool,
    env: &JokerEnv,
) -> (r: u32)
    requires
        ctx@.valid(),
    ensures
        r == extra_plays(*j, ctx@, *card, pareidolia, *env),
{
    match j.id {
        JokerId::SockAndBuskin => {
            if card_is_face(card, pareidolia) {
                1
            } else {
                0
            }
        },
        JokerId::HangingChad => {
            if ctx.scoring.len() > 0 {
                assert(ctx@.scoring[0] < ctx@.full_hand.len());
                if ctx.full_hand[ctx.scoring[0]].sort_id == card.sort_id {
                    return 2;
                }
            }
            0
        },
        JokerId::Dusk => {
            if env.hands_left == 0 {
                1
            } else {
                0
            }
        },
        JokerId::Selzer => 1,
        JokerId::Hack => {
            match card.id_for_eval() {
                Some(n) => {
                    if 2 <= n && n <= 5 {
                        1
                    } else {
                        0
                    }
                },
                None => 0,
            }
        },
        _ => 0,
    }
}

// ---- a scoring card ------------------------------------------------------

/// The number of the first scoring face from place `k` on.
pub open spec fn first_face_from(v: HandView, pareidolia: bool, k: nat) -> Option<u32>
    decreases v.scoring.len() - k,
{
    if k >= v.scoring.len() {
        None
    } else {
        let c = v.full_hand[v.scoring[k as int] as int];
        if super::is_face(c, pareidolia) {
            Some(c.sort_id)
        } else {
            first_face_from(v, pareidolia, k + 1)
        }
    }
}

/// What a joker does when it looks at a card.
#[verifier::ext_equal]
pub struct CardStep {
    pub j: OwnedJoker,
    pub out: Outbox,
    pub s: Streams,
    pub eff: Option<CardEffect>,
}

#[verifier::opaque]
pub open spec fn play_step(
    j: OwnedJoker,
    bp: bool,
    v: HandView,
    card: Card,
    lucky: bool,
    pareidolia: bool,
    smeared: bool,
    env: JokerEnv,
    out: Outbox,
    s: Streams,
) -> CardStep {
    let none = scoring::no_effect();
    let id = card.eval_id();
    let face = super::is_face(card, pareidolia);
    let idle = CardStep { j, out, s, eff: None };
    let gives = |e: CardEffect| CardStep { eff: Some(e), ..idle };
    let chips = |n: int| gives(CardEffect { chips: Double::of(n), ..none });
    let mult = |n: int| gives(CardEffect { mult: Double::of(n), ..none });
    let both = |c: int, m: int|
        gives(CardEffect { chips: Double::of(c), mult: Double::of(m), ..none });
    let times = |x: Double| gives(CardEffect { x_mult: x, ..none });
    let pays = |n: i64|
        CardStep { out: out.paid(n), eff: Some(CardEffect { dollars: n, ..none }), ..idle };
    match j.id {
        JokerId::Hiker => gives(CardEffect { perma_bonus: 5, ..none }),
        JokerId::LuckyCat => if !bp && lucky {
            CardStep { j: j.gain_x(Double::frac(25, 100)), eff: Some(none), ..idle }
        } else {
            idle
        },
        JokerId::Wee => if !bp && id == Some(2u8) {
            CardStep { j: j.gain_chips(8), eff: Some(none), ..idle }
        } else {
            idle
        },
        JokerId::Idol => if id == Some(env.idol_card.0) && card.suits_normal(
            env.idol_card.1,
            smeared,
        ) {
            times(Double::of(2))
        } else {
            idle
        },
        JokerId::Fibonacci => if id == Some(2u8) || id == Some(3u8) || id == Some(5u8) || id
            == Some(8u8) || id == Some(14u8) {
            mult(8)
        } else {
            idle
        },
        JokerId::RoughGem => if card.suits_normal(Suit::Diamonds, smeared) {
            pays(1)
        } else {
            idle
        },
        JokerId::OnyxAgate => if card.suits_normal(Suit::Clubs, smeared) {
            mult(7)
        } else {
            idle
        },
        JokerId::Arrowhead => if card.suits_normal(Suit::Spades, smeared) {
            chips(50)
        } else {
            idle
        },
        JokerId::Bloodstone => if card.suits_normal(Suit::Hearts, smeared) {
            CardStep {
                s: s.after("bloodstone"@),
                eff: if chance(s, "bloodstone"@, env.prob_normal, 2) {
                    Some(CardEffect { x_mult: Double::frac(15, 10), ..none })
                } else {
                    None
                },
                ..idle
            }
        } else {
            idle
        },
        JokerId::Ancient => if env.ancient_suit matches Some(a) && card.suits_normal(a, smeared) {
            times(Double::frac(15, 10))
        } else {
            idle
        },
        JokerId::Triboulet => if id == Some(12u8) || id == Some(13u8) {
            times(Double::of(2))
        } else {
            idle
        },
        JokerId::Photograph => if first_face_from(v, pareidolia, 0) == Some(card.sort_id) {
            times(Double::of(2))
        } else {
            idle
        },
        JokerId::EightBall => if out.has_room(env) && id == Some(8u8) {
            if chance(s, "8ball"@, env.prob_normal, 4) {
                CardStep {
                    s: s.after("8ball"@),
                    out: out.and(OutEvent::CreateConsumable(ConsumableSet::Tarot, "8ba")),
                    eff: Some(none),
                    ..idle
                }
            } else {
                CardStep { s: s.after("8ball"@), ..idle }
            }
        } else {
            idle
        },
        JokerId::ScaryFace => if face {
            chips(30)
        } else {
            idle
        },
        JokerId::Smiley => if face {
            mult(5)
        } else {
            idle
        },
        JokerId::Ticket => if card.enhancement == Enhancement::Gold {
            pays(4)
        } else {
            idle
        },
        JokerId::Scholar => if id == Some(14u8) {
            both(20, 4)
        } else {
            idle
        },
        JokerId::WalkieTalkie => if id == Some(10u8) || id == Some(4u8) {
            both(10, 4)
        } else {
            idle
        },
        JokerId::Business => if face {
            if chance(s, "business"@, env.prob_normal, 2) {
                CardStep {
                    s: s.after("business"@),
                    out: out.paid(2),
                    eff: Some(CardEffect { dollars: 2, ..none }),
                    ..idle
                }
            } else {
                CardStep { s: s.after("business"@), ..idle }
            }
        } else {
            idle
        },
        JokerId::EvenSteven => if id matches Some(n) && n <= 10 && n % 2 == 0 {
            mult(4)
        } else {
            idle
        },
        JokerId::OddTodd => if id matches Some(n) && ((n <= 10 && n % 2 == 1) || n == 14) {
            chips(31)
        } else {
            idle
        },
        _ => if favoured_suit(j.id) matches Some(f) && card.suits_normal(f, smeared) {
            mult(3)
        } else {
            idle
        },
    }
}

fn first_face(ctx: &HandCtx, pareidolia: bool) -> (r: Option<u32>)
    requires
        ctx@.valid(),
    ensures
        r == first_face_from(ctx@, pareidolia, 0),
{
    let mut k: usize = 0;
    while k < ctx.scoring.len()
        invariant
            k <= ctx.scoring.len(),
            ctx@.valid(),
            first_face_from(ctx@, pareidolia, 0) == first_face_from(ctx@, pareidolia, k as nat),
        decreases ctx.scoring.len() - k,
    {
        assert(ctx@.scoring[k as int] == ctx.scoring@[k as int]);
        let c = ctx.full_hand[ctx.scoring[k]];
        if card_is_face(&c, pareidolia) {
            return Some(c.sort_id);
        }
        k = k + 1;
    }
    None
}

fn is_id(id: Option<u8>, n: u8) -> (r: bool)
    ensures
        r == (id == Some(n)),
{
    match id {
        Some(k) => k == n,
        None => false,
    }
}

#[verifier::rlimit(30)]
pub(super) fn individual_play(
    j: &mut OwnedJoker,
    bp: bool,
    ctx: &HandCtx,
    card: &Card,
    lucky_trigger: bool,
    pareidolia: bool,
    smeared: bool,
    env: &JokerEnv,
    out: &mut JokerOutbox,
    rng: &mut RngState,
) -> (r: Option<CardEffect>)
    requires
        ctx@.valid(),
    ensures
        ({
            let step = play_step(
                *old(j),
                bp,
                ctx@,
                *card,
                lucky_trigger,
                pareidolia,
                smeared,
                *env,
                old(out)@,
                old(rng)@,
            );
            &&& *final(j) == step.j
            &&& final(out)@ == step.out
            &&& final(rng)@ == step.s
            &&& r == step.eff
        }),
{
    proof {
        reveal(play_step);
    }
    let id = card.id_for_eval();
    let mut eff = CardEffect::default();
    match j.id {
        JokerId::Hiker => {
            eff.perma_bonus = 5;
            return Some(eff);
        },
        JokerId::LuckyCat => {
            if !bp && lucky_trigger {
                j.state.x_mult = j.state.x_mult.add(Double::lit(25, 100));
                return Some(eff);
            }
        },
        JokerId::Wee => {
            if !bp && is_id(id, 2) {
                j.state.chips = j.state.chips.add(Double::from_i64(8));
                return Some(eff);
            }
        },
        JokerId::Idol => {
            if is_id(id, env.idol_card.0) && card.is_suit_normal(env.idol_card.1, smeared) {
                eff.x_mult = Double::from_i64(2);
                return Some(eff);
            }
        },
        JokerId::Fibonacci => {
            if is_id(id, 2) || is_id(id, 3) || is_id(id, 5) || is_id(id, 8) || is_id(id, 14) {
                eff.mult = Double::from_i64(8);
                return Some(eff);
            }
        },
        JokerId::RoughGem => {
            if card.is_suit_normal(Suit::Diamonds, smeared) {
                eff.dollars = 1;
                out.pay(1);
                return Some(eff);
            }
        },
        JokerId::OnyxAgate => {
            if card.is_suit_normal(Suit::Clubs, smeared) {
                eff.mult = Double::from_i64(7);
                return Some(eff);
            }
        },
        JokerId::Arrowhead => {
            if card.is_suit_normal(Suit::Spades, smeared) {
                eff.chips = Double::from_i64(50);
                return Some(eff);
            }
        },
        JokerId::Bloodstone => {
            if card.is_suit_normal(Suit::Hearts, smeared) && roll(
                rng,
                "bloodstone",
                env.prob_normal,
                2,
            ) {
                eff.x_mult = Double::lit(15, 10);
                return Some(eff);
            }
        },
        JokerId::Ancient => {
            if let Some(a) = env.ancient_suit {
                if card.is_suit_normal(a, smeared) {
                    eff.x_mult = Double::lit(15, 10);
                    return Some(eff);
                }
            }
        },
        JokerId::Triboulet => {
            if is_id(id, 12) || is_id(id, 13) {
                eff.x_mult = Double::from_i64(2);
                return Some(eff);
            }
        },
        JokerId::Photograph => {
            if let Some(n) = first_face(ctx, pareidolia) {
                if n == card.sort_id {
                    eff.x_mult = Double::from_i64(2);
                    return Some(eff);
                }
            }
        },
        JokerId::EightBall => {
            if out.has_room(env) && is_id(id, 8) && roll(rng, "8ball", env.prob_normal, 4) {
                out.push(OutEvent::CreateConsumable(ConsumableSet::Tarot, "8ba"));
                return Some(eff);
            }
        },
        JokerId::ScaryFace => {
            if card_is_face(card, pareidolia) {
                eff.chips = Double::from_i64(30);
                return Some(eff);
            }
        },
        JokerId::Smiley => {
            if card_is_face(card, pareidolia) {
                eff.mult = Double::from_i64(5);
                return Some(eff);
            }
        },
        JokerId::Ticket => {
            if card.enhancement == Enhancement::Gold {
                eff.dollars = 4;
                out.pay(4);
                return Some(eff);
            }
        },
        JokerId::Scholar => {
            if is_id(id, 14) {
                eff.chips = Double::from_i64(20);
                eff.mult = Double::from_i64(4);
                return Some(eff);
            }
        },
        JokerId::WalkieTalkie => {
            if is_id(id, 10) || is_id(id, 4) {
                eff.chips = Double::from_i64(10);
                eff.mult = Double::from_i64(4);
                return Some(eff);
            }
        },
        JokerId::Business => {
            if card_is_face(card, pareidolia) && roll(rng, "business", env.prob_normal, 2) {
                eff.dollars = 2;
                out.pay(2);
                return Some(eff);
            }
        },
        JokerId::EvenSteven => {
            if let Some(n) = id {
                if n <= 10 && n % 2 == 0 {
                    eff.mult = Double::from_i64(4);
                    return Some(eff);
                }
            }
        },
        JokerId::OddTodd => {
            if let Some(n) = id {
                if (n <= 10 && n % 2 == 1) || n == 14 {
                    eff.chips = Double::from_i64(31);
                    return Some(eff);
                }
            }
        },
        _ => {
            if let Some(suit) = suit_mult_suit(j.id) {
                if card.is_suit_normal(suit, smeared) {
                    eff.mult = Double::from_i64(3);
                    return Some(eff);
                }
            }
        },
    }
    None
}

// ---- a held card ---------------------------------------------------------

/// The lowest held card among the first `n`, the last of equals, Stone cards
/// left out: its rank number, chip value and number.
pub open spec fn lowest_held(held: Seq<Card>, n: nat) -> (u8, int, Option<u32>)
    decreases n,
{
    if n == 0 {
        (15, 15, None)
    } else {
        let before = lowest_held(held, (n - 1) as nat);
        let c = held[n - 1];
        if before.0 >= c.rank.0 && c.enhancement != Enhancement::Stone {
            (c.rank.0, c.rank.chips() as int, Some(c.sort_id))
        } else {
            before
        }
    }
}

#[verifier::opaque]
pub open spec fn held_step(
    j: OwnedJoker,
    v: HandView,
    card: Card,
    pareidolia: bool,
    env: JokerEnv,
    out: Outbox,
    s: Streams,
) -> CardStep {
    let none = scoring::no_effect();
    let idle = CardStep { j, out, s, eff: None };
    let unless_debuffed = |e: CardEffect|
        CardStep {
            eff: Some(
                if card.debuff {
                    none
                } else {
                    e
                },
            ),
            ..idle
        };
    match j.id {
        JokerId::ShootTheMoon => if card.rank.0 == 12 && card.enhancement != Enhancement::Stone {
            unless_debuffed(CardEffect { h_mult: Double::of(13), ..none })
        } else {
            idle
        },
        JokerId::Baron => if card.rank.0 == 13 && card.enhancement != Enhancement::Stone {
            unless_debuffed(CardEffect { x_mult: Double::frac(15, 10), ..none })
        } else {
            idle
        },
        JokerId::ReservedParking => if super::is_face(card, pareidolia) {
            if chance(s, "parking"@, env.prob_normal, 2) {
                CardStep {
                    s: s.after("parking"@),
                    out: out.paid(1),
                    eff: Some(CardEffect { dollars: 1, ..none }),
                    ..idle
                }
            } else {
                CardStep { s: s.after("parking"@), ..idle }
            }
        } else {
            idle
        },
        JokerId::RaisedFist => {
            let low = lowest_held(v.held, v.held.len());
            if low.2 == Some(card.sort_id) {
                unless_debuffed(
                    CardEffect { h_mult: Double::of(2).times(Double::of(low.1)), ..none },
                )
            } else {
                idle
            }
        },
        _ => idle,
    }
}

fn lowest(held: &Vec<Card>) -> (r: (u8, i64, Option<u32>))
    ensures
        (r.0, r.1 as int, r.2) == lowest_held(held@, held@.len()),
{
    let mut id: u8 = 15;
    let mut value: i64 = 15;
    let mut who: Option<u32> = None;
    let mut i: usize = 0;
    while i < held.len()
        invariant
            i <= held.len(),
            (id, value as int, who) == lowest_held(held@, i as nat),
        decreases held.len() - i,
    {
        let c = held[i];
        if id >= c.rank.id() && c.enhancement != Enhancement::Stone {
            value = c.rank.nominal() as i64;
            id = c.rank.id();
            who = Some(c.sort_id);
        }
        i = i + 1;
    }
    (id, value, who)
}

pub(super) fn individual_held(
    j: &OwnedJoker,
    ctx: &HandCtx,
    card: &Card,
    pareidolia: bool,
    env: &JokerEnv,
    out: &mut JokerOutbox,
    rng: &mut RngState,
) -> (r: Option<CardEffect>)
    ensures
        ({
            let step = held_step(*j, ctx@, *card, pareidolia, *env, old(out)@, old(rng)@);
            &&& final(out)@ == step.out
            &&& final(rng)@ == step.s
            &&& r == step.eff
            &&& step.j == *j
        }),
{
    proof {
        reveal(held_step);
    }
    let mut eff = CardEffect::default();
    match j.id {
        JokerId::ShootTheMoon => {
            if card.rank.id() == 12 && card.enhancement != Enhancement::Stone {
                if !card.debuff {
                    eff.h_mult = Double::from_i64(13);
                }
                return Some(eff);
            }
        },
        JokerId::Baron => {
            if card.rank.id() == 13 && card.enhancement != Enhancement::Stone {
                if !card.debuff {
                    eff.x_mult = Double::lit(15, 10);
                }
                return Some(eff);
            }
        },
        JokerId::ReservedParking => {
            if card_is_face(card, pareidolia) && roll(rng, "parking", env.prob_normal, 2) {
                eff.dollars = 1;
                out.pay(1);
                return Some(eff);
            }
        },
        JokerId::RaisedFist => {
            let low = lowest(ctx.held);
            if let Some(n) = low.2 {
                if n == card.sort_id {
                    if !card.debuff {
                        eff.h_mult = Double::from_i64(2).mul(Double::from_i64(low.1));
                    }
                    return Some(eff);
                }
            }
        },
        _ => {},
    }
    None
}

// ---- a joker on its own --------------------------------------------------

/// Which suits have been claimed.
#[derive(Debug, Clone, Copy, PartialEq, Eq, Structural)]
pub struct SuitClaims {
    pub hearts: bool,
    pub diamonds: bool,
    pub spades: bool,
    pub clubs: bool,
}

pub open spec fn no_claims() -> SuitClaims {
    SuitClaims { hearts: false, diamonds: false, spades: false, clubs: false }
}

/// One free suit of those that a card matches, in the order Hearts, Diamonds,
/// Spades, Clubs, is claimed.
pub open spec fn claim_one(f: SuitClaims, h: bool, d: bool, s: bool, c: bool) -> SuitClaims {
    if h && !f.hearts {
        SuitClaims { hearts: true, ..f }
    } else if d && !f.diamonds {
        SuitClaims { diamonds: true, ..f }
    } else if s && !f.spades {
        SuitClaims { spades: true, ..f }
    } else if c && !f.clubs {
        SuitClaims { clubs: true, ..f }
    } else {
        f
    }
}

/// One free suit in the order Clubs, Diamonds, Spades, Hearts is claimed.
pub open spec fn claim_wild(f: SuitClaims, h: bool, d: bool, s: bool, c: bool) -> SuitClaims {
    if c && !f.clubs {
        SuitClaims { clubs: true, ..f }
    } else if d && !f.diamonds {
        SuitClaims { diamonds: true, ..f }
    } else if s && !f.spades {
        SuitClaims { spades: true, ..f }
    } else if h && !f.hearts {
        SuitClaims { hearts: true, ..f }
    } else {
        f
    }
}

/// The Flower Pot's claims of the first `n` scoring cards: each card that is
/// not Wild claims a free suit, debuffed or not.
pub open spec fn pot_natural(v: HandView, smeared: bool, n: nat) -> SuitClaims
    decreases n,
{
    if n == 0 {
        no_claims()
    } else {
        let f = pot_natural(v, smeared, (n - 1) as nat);
        let c = v.full_hand[v.scoring[n - 1] as int];
        if c.enhancement == Enhancement::Wild {
            f
        } else {
            claim_one(
                f,
                c.suits_any(Suit::Hearts, smeared),
                c.suits_any(Suit::Diamonds, smeared),
                c.suits_any(Suit::Spades, smeared),
                c.suits_any(Suit::Clubs, smeared),
            )
        }
    }
}

/// Then each Wild card that is not debuffed claims one.
pub open spec fn pot_wild(v: HandView, smeared: bool, n: nat) -> SuitClaims
    decreases n,
{
    if n == 0 {
        pot_natural(v, smeared, v.scoring.len())
    } else {
        let f = pot_wild(v, smeared, (n - 1) as nat);
        let c = v.full_hand[v.scoring[n - 1] as int];
        if c.enhancement != Enhancement::Wild {
            f
        } else {
            claim_one(
                f,
                c.suits_normal(Suit::Hearts, smeared),
                c.suits_normal(Suit::Diamonds, smeared),
                c.suits_normal(Suit::Spades, smeared),
                c.suits_normal(Suit::Clubs, smeared),
            )
        }
    }
}

/// Seeing Double: every suit that one of the first `n` scoring cards matches,
/// Wild cards left out.
pub open spec fn double_natural(v: HandView, smeared: bool, n: nat) -> SuitClaims
    decreases n,
{
    if n == 0 {
        no_claims()
    } else {
        let f = double_natural(v, smeared, (n - 1) as nat);
        let c = v.full_hand[v.scoring[n - 1] as int];
        if c.enhancement == Enhancement::Wild {
            f
        } else {
            SuitClaims {
                hearts: f.hearts || c.suits_normal(Suit::Hearts, smeared),
                diamonds: f.diamonds || c.suits_normal(Suit::Diamonds, smeared),
                spades: f.spades || c.suits_normal(Suit::Spades, smeared),
                clubs: f.clubs || c.suits_normal(Suit::Clubs, smeared),
            }
        }
    }
}

/// Then each Wild card claims one suit that is still missing.
pub open spec fn double_wild(v: HandView, smeared: bool, n: nat) -> SuitClaims
    decreases n,
{
    if n == 0 {
        double_natural(v, smeared, v.scoring.len())
    } else {
        let f = double_wild(v, smeared, (n - 1) as nat);
        let c = v.full_hand[v.scoring[n - 1] as int];
        if c.enhancement != Enhancement::Wild {
            f
        } else {
            claim_wild(
                f,
                c.suits_normal(Suit::Hearts, smeared),
                c.suits_normal(Suit::Diamonds, smeared),
                c.suits_normal(Suit::Spades, smeared),
                c.suits_normal(Suit::Clubs, smeared),
            )
        }
    }
}

/// Whether an Ace scores.
pub open spec fn scores_ace(v: HandView) -> bool {
    exists|k: int|
        0 <= k < v.scoring.len() && v.full_hand[(#[trigger] v.scoring[k]) as int].eval_id() == Some(
            14u8,
        )
}

/// Whether every held card is black.
pub open spec fn all_black(held: Seq<Card>, smeared: bool) -> bool {
    forall|k: int|
        0 <= k < held.len() ==> (#[trigger] held[k]).suits_flush(Suit::Clubs, smeared)
            || held[k].suits_flush(Suit::Spades, smeared)
}

/// What a joker does on its own.
#[verifier::ext_equal]
pub struct MainStep {
    pub out: Outbox,
    pub dollars: i64,
    pub s: Streams,
    pub eff: Option<MainEffect>,
}

pub open spec fn main_none() -> MainEffect {
    MainEffect { mult_mod: Double::of(0), chip_mod: Double::of(0), x_mult_mod: Double::of(0) }
}

/// Multiplier alone.
pub open spec fn adds_mult(x: Double) -> Option<MainEffect> {
    Some(MainEffect { mult_mod: x, ..main_none() })
}

/// Chips alone.
pub open spec fn adds_chips(x: Double) -> Option<MainEffect> {
    Some(MainEffect { chip_mod: x, ..main_none() })
}

/// A factor alone.
pub open spec fn multiplies(x: Double) -> Option<MainEffect> {
    Some(MainEffect { x_mult_mod: x, ..main_none() })
}

/// The multiplier that a joker has gathered, if any.
pub open spec fn gathered_mult(j: OwnedJoker) -> Option<MainEffect> {
    if Double::of(0).below(j.state.mult) {
        adds_mult(j.state.mult)
    } else {
        None
    }
}

/// The number of steps that a Loyalty Card is away from its reward.
pub open spec fn loyalty_left(j: OwnedJoker, env: JokerEnv) -> int {
    4i64.wrapping_sub(env.hands_played_total.wrapping_sub(j.hands_at_create)) as int % 6
}

/// The dollars at hand, with what was paid in this window.
pub open spec fn money_now(env: JokerEnv, out: Outbox) -> i64 {
    env.dollars.wrapping_add(out.dollar_buffer)
}

/// The effect of the jokers that neither draw, pay nor make anything, once the
/// general rules do not apply.
#[verifier::opaque]
pub open spec fn own_effect(
    j: OwnedJoker,
    v: HandView,
    hands: HandsTable,
    njokers: usize,
    swash: Double,
    live_x: Double,
    smeared: bool,
    env: JokerEnv,
    out: Outbox,
) -> Option<MainEffect> {
    match j.id {
        JokerId::Half => if v.full_hand.len() <= 3 {
            adds_mult(Double::of(20))
        } else {
            None
        },
        JokerId::Abstract => adds_mult(Double::of(3).times(Double::of(njokers as int))),
        JokerId::Acrobat => if env.hands_left == 0 {
            multiplies(Double::of(3))
        } else {
            None
        },
        JokerId::MysticSummit => if env.discards_left == 0 {
            adds_mult(Double::of(15))
        } else {
            None
        },
        JokerId::Banner => if env.discards_left > 0 {
            adds_chips(Double::of(30).times(Double::of(env.discards_left as int)))
        } else {
            None
        },
        JokerId::Stuntman => adds_chips(Double::of(250)),
        JokerId::Supernova => adds_mult(Double::of(hands.row(v.hand_type).played as int)),
        JokerId::Ceremonial => gathered_mult(j),
        JokerId::FlowerPot => {
            let f = pot_wild(v, smeared, v.scoring.len());
            if f.hearts && f.diamonds && f.spades && f.clubs {
                multiplies(Double::of(3))
            } else {
                None
            }
        },
        JokerId::SeeingDouble => {
            let f = double_wild(v, smeared, v.scoring.len());
            if f.clubs && (f.hearts || f.diamonds || f.spades) {
                multiplies(Double::of(2))
            } else {
                None
            }
        },
        JokerId::Wee => adds_chips(j.state.chips),
        JokerId::Castle => if Double::of(0).below(j.state.chips) {
            adds_chips(j.state.chips)
        } else {
            None
        },
        JokerId::BlueJoker => if env.deck_len > 0 {
            adds_chips(Double::of(2).times(Double::of(env.deck_len as int)))
        } else {
            None
        },
        JokerId::Erosion => {
            let missing = (env.starting_deck_size as i64).wrapping_sub(
                env.playing_cards_len as i64,
            );
            if missing > 0 {
                adds_mult(Double::of(4).times(Double::of(missing as int)))
            } else {
                None
            }
        },
        JokerId::Square => adds_chips(j.state.chips),
        JokerId::Runner => adds_chips(j.state.chips),
        JokerId::IceCream => adds_chips(j.state.chips),
        JokerId::Stone => if env.stone_tally > 0 {
            adds_chips(Double::of(25).times(Double::of(env.stone_tally as int)))
        } else {
            None
        },
        JokerId::SteelJoker => if env.steel_tally > 0 {
            multiplies(
                Double::of(1).plus(Double::frac(2, 10).times(Double::of(env.steel_tally as int))),
            )
        } else {
            None
        },
        JokerId::Bull => if money_now(env, out) > 0 {
            adds_chips(Double::of(2).times(Double::of(money_now(env, out) as int)))
        } else {
            None
        },
        JokerId::DriversLicense => if env.driver_tally >= 16 {
            multiplies(Double::of(3))
        } else {
            None
        },
        JokerId::Blackboard => if all_black(v.held, smeared) {
            multiplies(Double::of(3))
        } else {
            None
        },
        JokerId::Stencil => if (env.joker_slots as i64).wrapping_sub(njokers as i64) > 0 {
            multiplies(live_x)
        } else {
            None
        },
        JokerId::Swashbuckler => if Double::of(0).below(swash) {
            adds_mult(swash)
        } else {
            None
        },
        JokerId::Joker => adds_mult(Double::of(4)),
        JokerId::Trousers => gathered_mult(j),
        JokerId::RideTheBus => gathered_mult(j),
        JokerId::Flash => gathered_mult(j),
        JokerId::Popcorn => gathered_mult(j),
        JokerId::GreenJoker => gathered_mult(j),
        JokerId::FortuneTeller => if env.tarots_used > 0 {
            adds_mult(Double::of(env.tarots_used as int))
        } else {
            None
        },
        JokerId::GrosMichel => adds_mult(Double::of(15)),
        JokerId::Cavendish => multiplies(Double::of(3)),
        JokerId::RedCard => gathered_mult(j),
        JokerId::CardSharp => if hands.row(v.hand_type).played_this_round > 1 {
            multiplies(Double::of(3))
        } else {
            None
        },
        JokerId::Bootstraps => {
            let steps = Double::of(money_now(env, out) as int).over(Double::of(5)).floored();
            if Double::of(1).at_most(steps) {
                adds_mult(Double::of(2).times(steps))
            } else {
                None
            }
        },
        JokerId::Caino => if Double::of(1).below(j.state.extra) {
            multiplies(j.state.extra)
        } else {
            None
        },
        _ => None,
    }
}

/// What a joker does on its own: first the Loyalty Card, then any gathered
/// factor above one, then the jokers that wait for a hand, then each by its
/// own rule.
#[verifier::opaque]
pub open spec fn main_step(
    j: OwnedJoker,
    v: HandView,
    hands: HandsTable,
    njokers: usize,
    swash: Double,
    live_x: Double,
    smeared: bool,
    triggered: bool,
    env: JokerEnv,
    out: Outbox,
    dollars: i64,
    s: Streams,
) -> MainStep {
    let idle = MainStep { out, dollars, s, eff: None };
    let hand_ok = match awaited(j.id) {
        None => true,
        Some(ht) => (v.holds)(ht),
    };
    let creates = |e: OutEvent, eff: Option<MainEffect>| MainStep { out: out.and(e), eff, ..idle };
    if j.id == JokerId::LoyaltyCard {
        if loyalty_left(j, env) == 5 {
            MainStep { eff: multiplies(Double::of(4)), ..idle }
        } else {
            idle
        }
    } else if j.id != JokerId::SeeingDouble && Double::of(1).below(live_x) && hand_ok {
        MainStep { eff: multiplies(live_x), ..idle }
    } else if hand_mult(j.id) > 0 && hand_ok {
        MainStep { eff: adds_mult(Double::of(hand_mult(j.id))), ..idle }
    } else if hand_chips(j.id) > 0 && hand_ok {
        MainStep { eff: adds_chips(Double::of(hand_chips(j.id))), ..idle }
    } else if j.id == JokerId::Misprint {
        MainStep {
            s: s.after("misprint"@),
            eff: adds_mult(Double::of(s.range("misprint"@, 0, 23) as int)),
            ..idle
        }
    } else if j.id == JokerId::Matador {
        if triggered {
            MainStep {
                dollars: dollars.wrapping_add(8),
                out: out.paid(8),
                eff: Some(main_none()),
                ..idle
            }
        } else {
            idle
        }
    } else if j.id == JokerId::Vagabond {
        if out.has_room(env) && env.dollars <= 4 {
            creates(OutEvent::CreateConsumable(ConsumableSet::Tarot, "vag"), Some(main_none()))
        } else {
            idle
        }
    } else if j.id == JokerId::Superposition {
        if out.has_room(env) && scores_ace(v) && (v.holds)(HandType::Straight) {
            creates(OutEvent::CreateConsumable(ConsumableSet::Tarot, "sup"), None)
        } else {
            idle
        }
    } else if j.id == JokerId::Seance {
        if out.has_room(env) && (v.holds)(HandType::StraightFlush) {
            creates(OutEvent::CreateConsumable(ConsumableSet::Spectral, "sea"), None)
        } else {
            idle
        }
    } else {
        MainStep { eff: own_effect(j, v, hands, njokers, swash, live_x, smeared, env, out), ..idle }
    }
}

fn mult_effect(x: Double) -> (r: Option<MainEffect>)
    ensures
        r == adds_mult(x),
{
    let z = Double::from_i64(0);
    Some(MainEffect { mult_mod: x, chip_mod: z, x_mult_mod: z })
}

fn chip_effect(x: Double) -> (r: Option<MainEffect>)
    ensures
        r == adds_chips(x),
{
    let z = Double::from_i64(0);
    Some(MainEffect { mult_mod: z, chip_mod: x, x_mult_mod: z })
}

fn factor_effect(x: Double) -> (r: Option<MainEffect>)
    ensures
        r == multiplies(x),
{
    let z = Double::from_i64(0);
    Some(MainEffect { mult_mod: z, chip_mod: z, x_mult_mod: x })
}

fn message_only() -> (r: Option<MainEffect>)
    ensures
        r == Some(main_none()),
{
    let z = Double::from_i64(0);
    Some(MainEffect { mult_mod: z, chip_mod: z, x_mult_mod: z })
}

fn own_mult(j: &OwnedJoker) -> (r: Option<MainEffect>)
    ensures
        r == gathered_mult(*j),
{
    if Double::from_i64(0).lt(j.state.mult) {
        mult_effect(j.state.mult)
    } else {
        None
    }
}

fn take_one(f: SuitClaims, h: bool, d: bool, s: bool, c: bool) -> (r: SuitClaims)
    ensures
        r == claim_one(f, h, d, s, c),
{
    let mut r = f;
    if h && !f.hearts {
        r.hearts = true;
    } else if d && !f.diamonds {
        r.diamonds = true;
    } else if s && !f.spades {
        r.spades = true;
    } else if c && !f.clubs {
        r.clubs = true;
    }
    r
}

fn take_wild(f: SuitClaims, h: bool, d: bool, s: bool, c: bool) -> (r: SuitClaims)
    ensures
        r == claim_wild(f, h, d, s, c),
{
    let mut r = f;
    if c && !f.clubs {
        r.clubs = true;
    } else if d && !f.diamonds {
        r.diamonds = true;
    } else if s && !f.spades {
        r.spades = true;
    } else if h && !f.hearts {
        r.hearts = true;
    }
    r
}

fn flower_pot(ctx: &HandCtx, smeared: bool) -> (r: SuitClaims)
    requires
        ctx@.valid(),
    ensures
        r == pot_wild(ctx@, smeared, ctx@.scoring.len()),
{
    let mut f = SuitClaims { hearts: false, diamonds: false, spades: false, clubs: false };
    let mut k: usize = 0;
    while k < ctx.scoring.len()
        invariant
            k <= ctx.scoring.len(),
            ctx@.valid(),
            f == pot_natural(ctx@, smeared, k as nat),
        decreases ctx.scoring.len() - k,
    {
        assert(ctx@.scoring[k as int] == ctx.scoring@[k as int]);
        let c = ctx.full_hand[ctx.scoring[k]];
        if c.enhancement != Enhancement::Wild {
            f = take_one(
                f,
                c.is_suit_bypass_debuff(Suit::Hearts, smeared),
                c.is_suit_bypass_debuff(Suit::Diamonds, smeared),
                c.is_suit_bypass_debuff(Suit::Spades, smeared),
                c.is_suit_bypass_debuff(Suit::Clubs, smeared),
            );
        }
        k = k + 1;
    }
    let mut k: usize = 0;
    while k < ctx.scoring.len()
        invariant
            k <= ctx.scoring.len(),
            ctx@.valid(),
            f == pot_wild(ctx@, smeared, k as nat),
        decreases ctx.scoring.len() - k,
    {
        assert(ctx@.scoring[k as int] == ctx.scoring@[k as int]);
        let c = ctx.full_hand[ctx.scoring[k]];
        if c.enhancement == Enhancement::Wild {
            f = take_one(
                f,
                c.is_suit_normal(Suit::Hearts, smeared),
                c.is_suit_normal(Suit::Diamonds, smeared),
                c.is_suit_normal(Suit::Spades, smeared),
                c.is_suit_normal(Suit::Clubs, smeared),
            );
        }
        k = k + 1;
    }
    f
}

fn seeing_double(ctx: &HandCtx, smeared: bool) -> (r: SuitClaims)
    requires
        ctx@.valid(),
    ensures
        r == double_wild(ctx@, smeared, ctx@.scoring.len()),
{
    let mut f = SuitClaims { hearts: false, diamonds: false, spades: false, clubs: false };
    let mut k: usize = 0;
    while k < ctx.scoring.len()
        invariant
            k <= ctx.scoring.len(),
            ctx@.valid(),
            f == double_natural(ctx@, smeared, k as nat),
        decreases ctx.scoring.len() - k,
    {
        assert(ctx@.scoring[k as int] == ctx.scoring@[k as int]);
        let c = ctx.full_hand[ctx.scoring[k]];
        if c.enhancement != Enhancement::Wild {
            f = SuitClaims {
                hearts: f.hearts || c.is_suit_normal(Suit::Hearts, smeared),
                diamonds: f.diamonds || c.is_suit_normal(Suit::Diamonds, smeared),
                spades: f.spades || c.is_suit_normal(Suit::Spades, smeared),
                clubs: f.clubs || c.is_suit_normal(Suit::Clubs, smeared),
            };
        }
        k = k + 1;
    }
    let mut k: usize = 0;
    while k < ctx.scoring.len()
        invariant
            k <= ctx.scoring.len(),
            ctx@.valid(),
            f == double_wild(ctx@, smeared, k as nat),
        decreases ctx.scoring.len() - k,
    {
        assert(ctx@.scoring[k as int] == ctx.scoring@[k as int]);
        let c = ctx.full_hand[ctx.scoring[k]];
        if c.enhancement == Enhancement::Wild {
            f = take_wild(
                f,
                c.is_suit_normal(Suit::Hearts, smeared),
                c.is_suit_normal(Suit::Diamonds, smeared),
                c.is_suit_normal(Suit::Spades, smeared),
                c.is_suit_normal(Suit::Clubs, smeared),
            );
        }
        k = k + 1;
    }
    f
}

fn ace_scores(ctx: &HandCtx) -> (r: bool)
    requires
        ctx@.valid(),
    ensures
        r == scores_ace(ctx@),
{
    let mut k: usize = 0;
    while k < ctx.scoring.len()
        invariant
            k <= ctx.scoring.len(),
            ctx@.valid(),
            forall|m: int|
                0 <= m < k ==> ctx@.full_hand[(#[trigger] ctx@.scoring[m]) as int].eval_id()
                    != Some(14u8),
        decreases ctx.scoring.len() - k,
    {
        assert(ctx@.scoring[k as int] == ctx.scoring@[k as int]);
        if is_id(ctx.full_hand[ctx.scoring[k]].id_for_eval(), 14) {
            return true;
        }
        k = k + 1;
    }
    false
}

fn hand_is_black(held: &Vec<Card>, smeared: bool) -> (r: bool)
    ensures
        r == all_black(held@, smeared),
{
    let mut k: usize = 0;
    while k < held.len()
        invariant
            k <= held.len(),
            forall|m: int|
                0 <= m < k ==> (#[trigger] held@[m]).suits_flush(Suit::Clubs, smeared)
                    || held@[m].suits_flush(Suit::Spades, smeared),
        decreases held.len() - k,
    {
        if !(held[k].is_suit(Suit::Clubs, smeared) || held[k].is_suit(Suit::Spades, smeared)) {
            return false;
        }
        k = k + 1;
    }
    true
}

fn loyalty_remaining(j: &OwnedJoker, env: &JokerEnv) -> (r: i64)
    ensures
        r == loyalty_left(*j, *env),
{
    let n: i64 = env.hands_played_total.wrapping_sub(j.hands_at_create);
    let x: i64 = 4i64.wrapping_sub(n);
    let shifted: i128 = x as i128 + 6 * 0x8000_0000_0000_0000i128;
    (shifted % 6) as i64
}

#[verifier::rlimit(40)]
fn own_main(
    j: &OwnedJoker,
    ctx: &HandCtx,
    hands: &HandsTable,
    njokers: usize,
    swash: Double,
    live_x: Double,
    smeared: bool,
    env: &JokerEnv,
    out: &JokerOutbox,
) -> (r: Option<MainEffect>)
    requires
        ctx@.valid(),
    ensures
        r == own_effect(*j, ctx@, *hands, njokers, swash, live_x, smeared, *env, out@),
{
    proof {
        reveal(own_effect);
    }
    match j.id {
        JokerId::Half => {
            if ctx.full_hand.len() <= 3 {
                return mult_effect(Double::from_i64(20));
            }
        },
        JokerId::Abstract => {
            return mult_effect(Double::from_i64(3).mul(Double::from_u64(njokers as u64)));
        },
        JokerId::Acrobat => {
            if env.hands_left == 0 {
                return factor_effect(Double::from_i64(3));
            }
        },
        JokerId::MysticSummit => {
            if env.discards_left == 0 {
                return mult_effect(Double::from_i64(15));
            }
        },
        JokerId::Banner => {
            if env.discards_left > 0 {
                return chip_effect(Double::from_i64(30).mul(Double::from_i64(env.discards_left)));
            }
        },
        JokerId::Stuntman => {
            return chip_effect(Double::from_i64(250));
        },
        JokerId::Supernova => {
            return mult_effect(Double::from_i64(hands.get(ctx.hand_type).played as i64));
        },
        JokerId::Ceremonial => {
            return own_mult(j);
        },
        JokerId::FlowerPot => {
            let f = flower_pot(ctx, smeared);
            if f.hearts && f.diamonds && f.spades && f.clubs {
                return factor_effect(Double::from_i64(3));
            }
        },
        JokerId::SeeingDouble => {
            let f = seeing_double(ctx, smeared);
            if f.clubs && (f.hearts || f.diamonds || f.spades) {
                return factor_effect(Double::from_i64(2));
            }
        },
        JokerId::Wee => {
            return chip_effect(j.state.chips);
        },
        JokerId::Castle => {
            if Double::from_i64(0).lt(j.state.chips) {
                return chip_effect(j.state.chips);
            }
        },
        JokerId::BlueJoker => {
            if env.deck_len > 0 {
                return chip_effect(
                    Double::from_i64(2).mul(Double::from_u64(env.deck_len as u64)),
                );
            }
        },
        JokerId::Erosion => {
            let missing: i64 = (env.starting_deck_size as i64).wrapping_sub(
                env.playing_cards_len as i64,
            );
            if missing > 0 {
                return mult_effect(Double::from_i64(4).mul(Double::from_i64(missing)));
            }
        },
        JokerId::Square => {
            return chip_effect(j.state.chips);
        },
        JokerId::Runner => {
            return chip_effect(j.state.chips);
        },
        JokerId::IceCream => {
            return chip_effect(j.state.chips);
        },
        JokerId::Stone => {
            if env.stone_tally > 0 {
                return chip_effect(Double::from_i64(25).mul(Double::from_i64(env.stone_tally)));
            }
        },
        JokerId::SteelJoker => {
            if env.steel_tally > 0 {
                return factor_effect(
                    Double::from_i64(1).add(
                        Double::lit(2, 10).mul(Double::from_i64(env.steel_tally)),
                    ),
                );
            }
        },
        JokerId::Bull => {
            let total: i64 = env.dollars.wrapping_add(out.dollar_buffer);
            if total > 0 {
                return chip_effect(Double::from_i64(2).mul(Double::from_i64(total)));
            }
        },
        JokerId::DriversLicense => {
            if env.driver_tally >= 16 {
                return factor_effect(Double::from_i64(3));
            }
        },
        JokerId::Blackboard => {
            if hand_is_black(ctx.held, smeared) {
                return factor_effect(Double::from_i64(3));
            }
        },
        JokerId::Stencil => {
            if (env.joker_slots as i64).wrapping_sub(njokers as i64) > 0 {
                return factor_effect(live_x);
            }
        },
        JokerId::Swashbuckler => {
            if Double::from_i64(0).lt(swash) {
                return mult_effect(swash);
            }
        },
        JokerId::Joker => {
            return mult_effect(Double::from_i64(4));
        },
        JokerId::Trousers | JokerId::RideTheBus | JokerId::Flash | JokerId::Popcorn
        | JokerId::GreenJoker | JokerId::RedCard => {
            return own_mult(j);
        },
        JokerId::FortuneTeller => {
            if env.tarots_used > 0 {
                return mult_effect(Double::from_i64(env.tarots_used));
            }
        },
        JokerId::GrosMichel => {
            return mult_effect(Double::from_i64(15));
        },
        JokerId::Cavendish => {
            return factor_effect(Double::from_i64(3));
        },
        JokerId::CardSharp => {
            if hands.get(ctx.hand_type).played_this_round > 1 {
                return factor_effect(Double::from_i64(3));
            }
        },
        JokerId::Bootstraps => {
            let total: i64 = env.dollars.wrapping_add(out.dollar_buffer);
            let steps = Double::from_i64(total).div(Double::from_i64(5)).floor();
            if Double::from_i64(1).le(steps) {
                return mult_effect(Double::from_i64(2).mul(steps));
            }
        },
        JokerId::Caino => {
            if Double::from_i64(1).lt(j.state.extra) {
                return factor_effect(j.state.extra);
            }
        },
        _ => {},
    }
    None
}

pub(super) fn joker_main(
    j: &OwnedJoker,
    ctx: &HandCtx,
    hands: &HandsTable,
    njokers: usize,
    swashbuckler_mult: Double,
    live_x_mult: Double,
    smeared: bool,
    blind_triggered: bool,
    env: &JokerEnv,
    out: &mut JokerOutbox,
    dollars: &mut i64,
    rng: &mut RngState,
) -> (r: Option<MainEffect>)
    requires
        ctx@.valid(),
    ensures
        ({
            let step = main_step(
                *j,
                ctx@,
                *hands,
                njokers,
                swashbuckler_mult,
                live_x_mult,
                smeared,
                blind_triggered,
                *env,
                old(out)@,
                *old(dollars),
                old(rng)@,
            );
            &&& final(out)@ == step.out
            &&& *final(dollars) == step.dollars
            &&& final(rng)@ == step.s
            &&& r == step.eff
        }),
{
    proof {
        reveal(main_step);
    }
    if j.id == JokerId::LoyaltyCard {
        if loyalty_remaining(j, env) == 5 {
            return factor_effect(Double::from_i64(4));
        }
        return None;
    }
    let hand_ok = match joker_type(j.id) {
        None => true,
        Some(ht) => ctx.poker_hands.has(ht),
    };
    if j.id != JokerId::SeeingDouble && Double::from_i64(1).lt(live_x_mult) && hand_ok {
        return factor_effect(live_x_mult);
    }
    let tm: i64 = t_mult(j.id);
    if tm > 0 && hand_ok {
        return mult_effect(Double::from_i64(tm));
    }
    let tc: i64 = t_chips(j.id);
    if tc > 0 && hand_ok {
        return chip_effect(Double::from_i64(tc));
    }
    match j.id {
        JokerId::Misprint => {
            let n: i64 = rng.random_range("misprint", 0, 23);
            mult_effect(Double::from_i64(n))
        },
        JokerId::Matador => {
            if blind_triggered {
                *dollars = dollars.wrapping_add(8);
                out.pay(8);
                return message_only();
            }
            None
        },
        JokerId::Vagabond => {
            if out.has_room(env) && env.dollars <= 4 {
                out.push(OutEvent::CreateConsumable(ConsumableSet::Tarot, "vag"));
                return message_only();
            }
            None
        },
        JokerId::Superposition => {
            if out.has_room(env) && ace_scores(ctx) && ctx.poker_hands.has(HandType::Straight) {
                out.push(OutEvent::CreateConsumable(ConsumableSet::Tarot, "sup"));
            }
            None
        },
        JokerId::Seance => {
            if out.has_room(env) && ctx.poker_hands.has(HandType::StraightFlush) {
                out.push(OutEvent::CreateConsumable(ConsumableSet::Spectral, "sea"));
            }
            None
        },
        _ => own_main(
            j,
            ctx,
            hands,
            njokers,
            swashbuckler_mult,
            live_x_mult,
            smeared,
            env,
            out,
        ),
    }
}

// ---- after a hand, discards, the end of a round ---------------------------

/// Whether `x - n` has reached nothing.
pub open spec fn used_up(x: Double, n: int) -> bool {
    x.minus(Double::of(n)).at_most(Double::of(0))
}

fn spent(x: Double, n: i64) -> (r: bool)
    ensures
        r == used_up(x, n as int),
{
    x.sub(Double::from_i64(n)).le(Double::from_i64(0))
}

/// What a joker does after a hand: Ice Cream melts, Seltzer is drunk up.
pub open spec fn after_step(j: OwnedJoker, bp: bool, out: Outbox) -> (OwnedJoker, Outbox) {
    if j.id == JokerId::IceCream && !bp {
        if used_up(j.state.chips, 5) {
            (j, out.and(OutEvent::DestroyJoker(j.sort_id)))
        } else {
            (j.with_chips(j.state.chips.minus(Double::of(5))), out)
        }
    } else if j.id == JokerId::Selzer && !bp {
        if used_up(j.state.extra, 1) {
            (j, out.and(OutEvent::DestroyJoker(j.sort_id)))
        } else {
            (j.with_extra(j.state.extra.minus(Double::of(1))), out)
        }
    } else {
        (j, out)
    }
}

pub(super) fn after_hand(j: &mut OwnedJoker, bp: bool, out: &mut JokerOutbox)
    ensures
        (*final(j), final(out)@) == after_step(*old(j), bp, old(out)@),
{
    match j.id {
        JokerId::IceCream => {
            if !bp {
                if spent(j.state.chips, 5) {
                    out.push(OutEvent::DestroyJoker(j.sort_id));
                } else {
                    j.state.chips = j.state.chips.sub(Double::from_i64(5));
                }
            }
        },
        JokerId::Selzer => {
            if !bp {
                if spent(j.state.extra, 1) {
                    out.push(OutEvent::DestroyJoker(j.sort_id));
                } else {
                    j.state.extra = j.state.extra.sub(Double::from_i64(1));
                }
            }
        },
        _ => {},
    }
}

/// How many of the first `n` cards are faces.
pub open spec fn faces_among(cards: Seq<Card>, pareidolia: bool, n: nat) -> nat
    decreases n,
{
    if n == 0 {
        0
    } else {
        faces_among(cards, pareidolia, (n - 1) as nat) + (if super::is_face(
            cards[n - 1],
            pareidolia,
        ) {
            1nat
        } else {
            0
        })
    }
}

pub(super) fn count_faces(cards: &Vec<Card>, pareidolia: bool) -> (r: usize)
    ensures
        r == faces_among(cards@, pareidolia, cards@.len()),
{
    let mut n: usize = 0;
    let mut i: usize = 0;
    while i < cards.len()
        invariant
            i <= cards.len(),
            n <= i,
            n == faces_among(cards@, pareidolia, i as nat),
        decreases cards.len() - i,
    {
        if card_is_face(&cards[i], pareidolia) {
            n = n + 1;
        }
        i = i + 1;
    }
    n
}

/// What a joker does when a card is discarded.
#[verifier::ext_equal]
pub struct DiscardStep {
    pub j: OwnedJoker,
    pub out: Outbox,
    pub dollars: i64,
    /// The card is destroyed.
    pub removed: bool,
}

#[verifier::opaque]
pub open spec fn discard_step(
    j: OwnedJoker,
    bp: bool,
    card: Card,
    selected: Seq<Card>,
    pareidolia: bool,
    smeared: bool,
    env: JokerEnv,
    out: Outbox,
    dollars: i64,
) -> DiscardStep {
    let idle = DiscardStep { j, out, dollars, removed: false };
    let last = selected.len() > 0 && selected.last().sort_id == card.sort_id;
    let ranked = !card.debuff && card.enhancement != Enhancement::Stone;
    match j.id {
        JokerId::Ramen => if bp {
            idle
        } else if j.state.x_mult.minus(Double::frac(1, 100)).at_most(Double::of(1)) {
            DiscardStep { out: out.and(OutEvent::DestroyJoker(j.sort_id)), ..idle }
        } else {
            DiscardStep { j: j.with_x(j.state.x_mult.minus(Double::frac(1, 100))), ..idle }
        },
        JokerId::Yorick => if bp {
            idle
        } else if j.state.extra.at_most(Double::of(1)) {
            DiscardStep { j: j.with_extra(Double::of(23)).gain_x(Double::of(1)), ..idle }
        } else {
            DiscardStep { j: j.with_extra(j.state.extra.minus(Double::of(1))), ..idle }
        },
        JokerId::Trading => if !bp && env.discards_used_round <= 0 && selected.len() == 1 {
            DiscardStep { dollars: dollars.wrapping_add(3), removed: true, ..idle }
        } else {
            idle
        },
        JokerId::Castle => if !bp && !card.debuff && card.suits_normal(env.castle_suit, smeared) {
            DiscardStep { j: j.gain_chips(3), ..idle }
        } else {
            idle
        },
        JokerId::Mail => if ranked && card.rank.0 == env.mail_card_id {
            DiscardStep { dollars: dollars.wrapping_add(5), ..idle }
        } else {
            idle
        },
        JokerId::HitTheRoad => if !bp && ranked && card.rank.0 == 11 {
            DiscardStep { j: j.gain_x(Double::frac(5, 10)), ..idle }
        } else {
            idle
        },
        JokerId::GreenJoker => if !bp && last {
            DiscardStep {
                j: j.with_mult(j.state.mult.minus(Double::of(1)).larger(Double::of(0))),
                ..idle
            }
        } else {
            idle
        },
        JokerId::Faceless => if last && faces_among(selected, pareidolia, selected.len()) >= 3 {
            DiscardStep { dollars: dollars.wrapping_add(5), ..idle }
        } else {
            idle
        },
        _ => idle,
    }
}

pub(super) fn on_discard_card(
    j: &mut OwnedJoker,
    bp: bool,
    card: &Card,
    selected: &Vec<Card>,
    pareidolia: bool,
    smeared: bool,
    env: &JokerEnv,
    out: &mut JokerOutbox,
    dollars: &mut i64,
) -> (r: bool)
    ensures
        ({
            let step = discard_step(
                *old(j),
                bp,
                *card,
                selected@,
                pareidolia,
                smeared,
                *env,
                old(out)@,
                *old(dollars),
            );
            &&& *final(j) == step.j
            &&& final(out)@ == step.out
            &&& *final(dollars) == step.dollars
            &&& r == step.removed
        }),
{
    proof {
        reveal(discard_step);
    }
    let last = selected.len() > 0 && selected[selected.len() - 1].sort_id == card.sort_id;
    match j.id {
        JokerId::Ramen => {
            if !bp {
                let less = j.state.x_mult.sub(Double::lit(1, 100));
                if less.le(Double::from_i64(1)) {
                    out.push(OutEvent::DestroyJoker(j.sort_id));
                } else {
                    j.state.x_mult = less;
                }
            }
        },
        JokerId::Yorick => {
            if !bp {
                if j.state.extra.le(Double::from_i64(1)) {
                    j.state.extra = Double::from_i64(23);
                    j.state.x_mult = j.state.x_mult.add(Double::from_i64(1));
                } else {
                    j.state.extra = j.state.extra.sub(Double::from_i64(1));
                }
            }
        },
        JokerId::Trading => {
            if !bp && env.discards_used_round <= 0 && selected.len() == 1 {
                *dollars = dollars.wrapping_add(3);
                return true;
            }
        },
        JokerId::Castle => {
            if !bp && !card.debuff && card.is_suit_normal(env.castle_suit, smeared) {
                j.state.chips = j.state.chips.add(Double::from_i64(3));
            }
        },
        JokerId::Mail => {
            if !card.debuff && card.enhancement != Enhancement::Stone && card.rank.id()
                == env.mail_card_id {
                *dollars = dollars.wrapping_add(5);
            }
        },
        JokerId::HitTheRoad => {
            if !bp && !card.debuff && card.enhancement != Enhancement::Stone && card.rank.id()
                == 11 {
                j.state.x_mult = j.state.x_mult.add(Double::lit(5, 10));
            }
        },
        JokerId::GreenJoker => {
            if !bp && last {
                j.state.mult = j.state.mult.sub(Double::from_i64(1)).max(Double::from_i64(0));
            }
        },
        JokerId::Faceless => {
            if last && count_faces(selected, pareidolia) >= 3 {
                *dollars = dollars.wrapping_add(5);
            }
        },
        _ => {},
    }
    false
}

/// What a joker does at the end of a round.
#[verifier::ext_equal]
pub struct RoundStep {
    pub j: OwnedJoker,
    pub out: Outbox,
    pub s: Streams,
    /// The run is saved.
    pub saved: bool,
}

/// Whether at least a quarter of the chips was reached.
pub open spec fn a_quarter(env: JokerEnv) -> bool {
    Double::of(0).below(env.blind_chips) && Double::frac(25, 100).at_most(
        env.game_chips.over(env.blind_chips),
    )
}

#[verifier::opaque]
pub open spec fn round_step(
    j: OwnedJoker,
    hands: HandsTable,
    game_over: bool,
    env: JokerEnv,
    out: Outbox,
    s: Streams,
) -> RoundStep {
    let idle = RoundStep { j, out, s, saved: false };
    let gone = OutEvent::DestroyJoker(j.sort_id);
    match j.id {
        JokerId::Campfire => if env.blind_is_boss {
            RoundStep { j: j.reset_x(), ..idle }
        } else {
            idle
        },
        JokerId::Rocket => if env.blind_is_boss {
            RoundStep { j: j.gain_extra(2), ..idle }
        } else {
            idle
        },
        JokerId::TurtleBean => if used_up(j.state.extra, 1) {
            RoundStep { out: out.and(gone), ..idle }
        } else {
            RoundStep {
                j: j.with_extra(j.state.extra.minus(Double::of(1))),
                out: out.and(OutEvent::TurtleBeanShrink),
                ..idle
            }
        },
        JokerId::Invisible => RoundStep { j: j.gain_extra(1), ..idle },
        JokerId::Popcorn => if used_up(j.state.mult, 4) {
            RoundStep { out: out.and(gone), ..idle }
        } else {
            RoundStep { j: j.with_mult(j.state.mult.minus(Double::of(4))), ..idle }
        },
        JokerId::TodoList => RoundStep {
            j: OwnedJoker {
                state: JokerState {
                    to_do_hand: drawn_hand(s, visible_hands(hands, Some(j.state.to_do_hand), 12)),
                    ..j.state
                },
                ..j
            },
            s: s.after("to_do"@),
            ..idle
        },
        JokerId::Egg => RoundStep {
            j: OwnedJoker { extra_value: j.extra_value.wrapping_add(3), ..j },
            ..idle
        },
        JokerId::Gift => RoundStep { out: out.and(OutEvent::GiftCard), ..idle },
        JokerId::HitTheRoad => RoundStep { j: j.reset_x(), ..idle },
        JokerId::GrosMichel => RoundStep {
            s: s.after("gros_michel"@),
            out: if chance(s, "gros_michel"@, env.prob_normal, 6) {
                out.and(gone).and(OutEvent::SetGrosMichelExtinct)
            } else {
                out
            },
            ..idle
        },
        JokerId::Cavendish => RoundStep {
            s: s.after("cavendish"@),
            out: if chance(s, "cavendish"@, env.prob_normal, 1000) {
                out.and(gone)
            } else {
                out
            },
            ..idle
        },
        JokerId::MrBones => if game_over && a_quarter(env) {
            RoundStep { out: out.and(gone), saved: true, ..idle }
        } else {
            idle
        },
        _ => idle,
    }
}

pub(super) fn end_of_round(
    j: &mut OwnedJoker,
    hands: &HandsTable,
    game_over: bool,
    env: &JokerEnv,
    out: &mut JokerOutbox,
    rng: &mut RngState,
) -> (r: bool)
    ensures
        ({
            let step = round_step(*old(j), *hands, game_over, *env, old(out)@, old(rng)@);
            &&& *final(j) == step.j
            &&& final(out)@ == step.out
            &&& final(rng)@ == step.s
            &&& r == step.saved
        }),
{
    proof {
        reveal(round_step);
    }
    match j.id {
        JokerId::Campfire => {
            if env.blind_is_boss {
                j.drop_x();
            }
        },
        JokerId::Rocket => {
            if env.blind_is_boss {
                j.state.extra = j.state.extra.add(Double::from_i64(2));
            }
        },
        JokerId::TurtleBean => {
            if spent(j.state.extra, 1) {
                out.push(OutEvent::DestroyJoker(j.sort_id));
            } else {
                j.state.extra = j.state.extra.sub(Double::from_i64(1));
                out.push(OutEvent::TurtleBeanShrink);
            }
        },
        JokerId::Invisible => {
            j.state.extra = j.state.extra.add(Double::from_i64(1));
        },
        JokerId::Popcorn => {
            if spent(j.state.mult, 4) {
                out.push(OutEvent::DestroyJoker(j.sort_id));
            } else {
                j.state.mult = j.state.mult.sub(Double::from_i64(4));
            }
        },
        JokerId::TodoList => {
            j.state.to_do_hand = draw_hand(rng, hands, Some(j.state.to_do_hand));
        },
        JokerId::Egg => {
            j.extra_value = j.extra_value.wrapping_add(3);
        },
        JokerId::Gift => {
            out.push(OutEvent::GiftCard);
        },
        JokerId::HitTheRoad => {
            j.drop_x();
        },
        JokerId::GrosMichel => {
            if roll(rng, "gros_michel", env.prob_normal, 6) {
                out.push(OutEvent::DestroyJoker(j.sort_id));
                out.push(OutEvent::SetGrosMichelExtinct);
            }
        },
        JokerId::Cavendish => {
            if roll(rng, "cavendish", env.prob_normal, 1000) {
                out.push(OutEvent::DestroyJoker(j.sort_id));
            }
        },
        JokerId::MrBones => {
            if game_over && Double::from_i64(0).lt(env.blind_chips) && Double::lit(25, 100).le(
                env.game_chips.div(env.blind_chips),
            ) {
                out.push(OutEvent::DestroyJoker(j.sort_id));
                return true;
            }
        },
        _ => {},
    }
    false
}

/// What a joker pays at cash out.
pub open spec fn payout(j: OwnedJoker, env: JokerEnv) -> i64 {
    match j.id {
        JokerId::Golden => 4,
        JokerId::Cloud9 => if env.nine_tally > 0 {
            env.nine_tally
        } else {
            0
        },
        JokerId::Rocket => j.state.extra.truncated(),
        JokerId::Satellite => if env.planets_used > 0 {
            env.planets_used
        } else {
            0
        },
        JokerId::DelayedGrat => if env.discards_used_round == 0 && env.discards_left > 0 {
            2i64.wrapping_mul(env.discards_left)
        } else {
            0
        },
        _ => 0,
    }
}

pub(super) fn dollar_bonus(j: &OwnedJoker, env: &JokerEnv) -> (r: i64)
    ensures
        r == payout(*j, *env),
{
    match j.id {
        JokerId::Golden => 4,
        JokerId::Cloud9 => {
            if env.nine_tally > 0 {
                env.nine_tally
            } else {
                0
            }
        },
        JokerId::Rocket => j.state.extra.to_i64(),
        JokerId::Satellite => {
            if env.planets_used > 0 {
                env.planets_used
            } else {
                0
            }
        },
        JokerId::DelayedGrat => {
            if env.discards_used_round == 0 && env.discards_left > 0 {
                2i64.wrapping_mul(env.discards_left)
            } else {
                0
            }
        },
        _ => 0,
    }
}

} // verus!
