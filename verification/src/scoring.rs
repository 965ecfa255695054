//! Scoring a played hand.
use crate::blinds::ActiveBlind;
use crate::cards::{Card, Enhancement, HandType, Seal};
use crate::double;
use crate::double::Double;
use crate::exact;
use crate::handeval;
use crate::handeval::{EvalMods, PokerHands};
use crate::order;
use crate::perhand::PerHand;
use crate::rng::{RngState, Streams};
use vstd::prelude::*;

verus! {

/// What a run keeps of one poker hand.
#[derive(Debug, Clone, Copy, PartialEq, Eq, Structural)]
pub struct HandTableRow {
    pub level: u32,
    pub chips: Double,
    pub mult: Double,
    pub played: u32,
    pub played_this_round: u32,
    /// The secret hands are hidden until they are first played.
    pub visible: bool,
}

/// What a run keeps of the poker hands.
#[derive(Debug, Clone, Copy, PartialEq, Eq)]
pub struct HandsTable {
    pub rows: PerHand<HandTableRow>,
}

/// The row of a hand at the start of a run.
pub open spec fn first_row(ht: HandType) -> HandTableRow {
    HandTableRow {
        level: 1,
        chips: Double::of(ht.values().base_chips as int),
        mult: Double::of(ht.values().base_mult as int),
        played: 0,
        played_this_round: 0,
        visible: ht != HandType::FlushFive && ht != HandType::FlushHouse && ht
            != HandType::FiveOfAKind,
    }
}

/// `base + step * (level - 1)`, but at least `least`.
pub open spec fn leveled(base: u32, step: u32, level: u32, least: int) -> Double {
    Double::of(base as int).plus(
        Double::of(step as int).times(Double::of(level as int).minus(Double::of(1))),
    ).larger(Double::of(least))
}

impl HandTableRow {
    /// The row at another level.
    pub open spec fn at_level(self, ht: HandType, level: u32) -> HandTableRow {
        let v = ht.values();
        HandTableRow {
            level,
            mult: leveled(v.base_mult, v.level_mult, level, 1),
            chips: leveled(v.base_chips, v.level_chips, level, 0),
            ..self
        }
    }

    /// The level `amount` levels up, but not below 0.
    pub open spec fn level_after(self, amount: i64) -> u32 {
        let l = (self.level as i64).wrapping_add(amount);
        (if l < 0 {
            0
        } else {
            l
        }) as u32
    }

    /// The row after the hand was played once more.
    pub open spec fn once_more(self) -> HandTableRow {
        HandTableRow {
            played: self.played.wrapping_add(1),
            played_this_round: self.played_this_round.wrapping_add(1),
            visible: true,
            ..self
        }
    }
}

impl Default for HandsTable {
    fn default() -> (r: Self)
        ensures
            r == HandsTable::first(),
    {
        HandsTable::new()
    }
}

impl HandsTable {
    /// The table at the start of a run.
    pub open spec fn first() -> HandsTable {
        HandsTable {
            rows: PerHand {
                high_card: first_row(HandType::HighCard),
                pair: first_row(HandType::Pair),
                two_pair: first_row(HandType::TwoPair),
                three: first_row(HandType::ThreeOfAKind),
                straight: first_row(HandType::Straight),
                flush: first_row(HandType::Flush),
                full_house: first_row(HandType::FullHouse),
                four: first_row(HandType::FourOfAKind),
                straight_flush: first_row(HandType::StraightFlush),
                five: first_row(HandType::FiveOfAKind),
                flush_house: first_row(HandType::FlushHouse),
                flush_five: first_row(HandType::FlushFive),
            },
        }
    }

    /// The row of a hand.
    pub open spec fn row(self, ht: HandType) -> HandTableRow {
        self.rows.at(ht)
    }

    /// The table with one row replaced.
    pub open spec fn with_row(self, ht: HandType, row: HandTableRow) -> HandsTable {
        HandsTable { rows: self.rows.with(ht, row) }
    }

    /// The table after a hand went up by `amount` levels.
    pub open spec fn leveled_up(self, ht: HandType, amount: i64) -> HandsTable {
        let row = self.row(ht);
        self.with_row(ht, row.at_level(ht, row.level_after(amount)))
    }

    /// The table after a hand was played.
    pub open spec fn after_play(self, ht: HandType) -> HandsTable {
        self.with_row(ht, self.row(ht).once_more())
    }

    /// The table at the start of a round.
    pub open spec fn fresh_round(self) -> HandsTable {
        let f = |r: HandTableRow| HandTableRow { played_this_round: 0, ..r };
        HandsTable {
            rows: PerHand {
                high_card: f(self.rows.high_card),
                pair: f(self.rows.pair),
                two_pair: f(self.rows.two_pair),
                three: f(self.rows.three),
                straight: f(self.rows.straight),
                flush: f(self.rows.flush),
                full_house: f(self.rows.full_house),
                four: f(self.rows.four),
                straight_flush: f(self.rows.straight_flush),
                five: f(self.rows.five),
                flush_house: f(self.rows.flush_house),
                flush_five: f(self.rows.flush_five),
            },
        }
    }

    fn make_row(ht: HandType) -> (r: HandTableRow)
        ensures
            r == first_row(ht),
    {
        let v = ht.base_values();
        HandTableRow {
            level: 1,
            chips: Double::from_i64(v.base_chips as i64),
            mult: Double::from_i64(v.base_mult as i64),
            played: 0,
            played_this_round: 0,
            visible: !(ht == HandType::FlushFive || ht == HandType::FlushHouse || ht
                == HandType::FiveOfAKind),
        }
    }

    pub fn new() -> (r: Self)
        ensures
            r == HandsTable::first(),
    {
        HandsTable {
            rows: PerHand {
                high_card: HandsTable::make_row(HandType::HighCard),
                pair: HandsTable::make_row(HandType::Pair),
                two_pair: HandsTable::make_row(HandType::TwoPair),
                three: HandsTable::make_row(HandType::ThreeOfAKind),
                straight: HandsTable::make_row(HandType::Straight),
                flush: HandsTable::make_row(HandType::Flush),
                full_house: HandsTable::make_row(HandType::FullHouse),
                four: HandsTable::make_row(HandType::FourOfAKind),
                straight_flush: HandsTable::make_row(HandType::StraightFlush),
                five: HandsTable::make_row(HandType::FiveOfAKind),
                flush_house: HandsTable::make_row(HandType::FlushHouse),
                flush_five: HandsTable::make_row(HandType::FlushFive),
            },
        }
    }

    pub fn get(&self, ht: HandType) -> (r: &HandTableRow)
        ensures
            *r == self.row(ht),
    {
        proof {
            reveal(PerHand::at);
        }
        match ht {
            HandType::HighCard => &self.rows.high_card,
            HandType::Pair => &self.rows.pair,
            HandType::TwoPair => &self.rows.two_pair,
            HandType::ThreeOfAKind => &self.rows.three,
            HandType::Straight => &self.rows.straight,
            HandType::Flush => &self.rows.flush,
            HandType::FullHouse => &self.rows.full_house,
            HandType::FourOfAKind => &self.rows.four,
            HandType::StraightFlush => &self.rows.straight_flush,
            HandType::FiveOfAKind => &self.rows.five,
            HandType::FlushHouse => &self.rows.flush_house,
            HandType::FlushFive => &self.rows.flush_five,
        }
    }

    pub fn get_mut(&mut self, ht: HandType) -> (r: &mut HandTableRow)
        ensures
            *r == old(self).row(ht),
            *final(self) == old(self).with_row(ht, *final(r)),
    {
        proof {
            reveal(PerHand::at);
            reveal(PerHand::with);
        }
        match ht {
            HandType::HighCard => &mut self.rows.high_card,
            HandType::Pair => &mut self.rows.pair,
            HandType::TwoPair => &mut self.rows.two_pair,
            HandType::ThreeOfAKind => &mut self.rows.three,
            HandType::Straight => &mut self.rows.straight,
            HandType::Flush => &mut self.rows.flush,
            HandType::FullHouse => &mut self.rows.full_house,
            HandType::FourOfAKind => &mut self.rows.four,
            HandType::StraightFlush => &mut self.rows.straight_flush,
            HandType::FiveOfAKind => &mut self.rows.five,
            HandType::FlushHouse => &mut self.rows.flush_house,
            HandType::FlushFive => &mut self.rows.flush_five,
        }
    }

    fn level_value(base: u32, step: u32, level: u32, least: i64) -> (r: Double)
        ensures
            r == leveled(base, step, level, least as int),
    {
        Double::from_i64(base as i64).add(
            Double::from_i64(step as i64).mul(
                Double::from_i64(level as i64).sub(Double::from_i64(1)),
            ),
        ).max(Double::from_i64(least))
    }

    /// Move a hand up by `amount` levels, or down by a negative amount.
    pub fn level_up(&mut self, ht: HandType, amount: i64)
        ensures
            *final(self) == old(self).leveled_up(ht, amount),
    {
        let v = ht.base_values();
        let mut row = *self.get(ht);
        let l: i64 = (row.level as i64).wrapping_add(amount);
        row.level = (if l < 0 {
            0
        } else {
            l
        }) as u32;
        row.mult = HandsTable::level_value(v.base_mult, v.level_mult, row.level, 1);
        row.chips = HandsTable::level_value(v.base_chips, v.level_chips, row.level, 0);
        self.rows.set(ht, row);
    }

    /// Count one more play of a hand, which also reveals it.
    pub(crate) fn count_play(&mut self, ht: HandType)
        ensures
            *final(self) == old(self).after_play(ht),
    {
        let mut row = *self.get(ht);
        row.played = row.played.wrapping_add(1);
        row.played_this_round = row.played_this_round.wrapping_add(1);
        row.visible = true;
        self.rows.set(ht, row);
    }

    pub fn reset_played_this_round(&mut self)
        ensures
            *final(self) == old(self).fresh_round(),
    {
        self.rows.high_card.played_this_round = 0;
        self.rows.pair.played_this_round = 0;
        self.rows.two_pair.played_this_round = 0;
        self.rows.three.played_this_round = 0;
        self.rows.straight.played_this_round = 0;
        self.rows.flush.played_this_round = 0;
        self.rows.full_house.played_this_round = 0;
        self.rows.four.played_this_round = 0;
        self.rows.straight_flush.played_this_round = 0;
        self.rows.five.played_this_round = 0;
        self.rows.flush_house.played_this_round = 0;
        self.rows.flush_five.played_this_round = 0;
    }
}

/// What a card or a joker adds to the score when a card is looked at. A zero
/// factor means none.
#[derive(Debug, Clone, Copy, PartialEq, Eq, Structural)]
pub struct CardEffect {
    pub chips: Double,
    pub mult: Double,
    pub p_dollars: i64,
    pub dollars: i64,
    pub x_mult: Double,
    pub edition_chips: Double,
    pub edition_mult: Double,
    pub edition_x_mult: Double,
    /// Multiplier of a card held in hand.
    pub h_mult: Double,
    /// Dollars of a card held at the end of a round.
    pub h_dollars: i64,
    /// Chips added to the card for good.
    pub perma_bonus: i64,
}

/// The effect of nothing.
pub open spec fn no_effect() -> CardEffect {
    CardEffect {
        chips: Double::of(0),
        mult: Double::of(0),
        p_dollars: 0,
        dollars: 0,
        x_mult: Double::of(0),
        edition_chips: Double::of(0),
        edition_mult: Double::of(0),
        edition_x_mult: Double::of(0),
        h_mult: Double::of(0),
        h_dollars: 0,
        perma_bonus: 0,
    }
}

impl Default for CardEffect {
    fn default() -> (r: Self)
        ensures
            r == no_effect(),
    {
        let zero = Double::from_i64(0);
        CardEffect {
            chips: zero,
            mult: zero,
            p_dollars: 0,
            dollars: 0,
            x_mult: zero,
            edition_chips: zero,
            edition_mult: zero,
            edition_x_mult: zero,
            h_mult: zero,
            h_dollars: 0,
            perma_bonus: 0,
        }
    }
}

/// Whether a number is zero.
pub open spec fn is_zero(x: Double) -> bool {
    x.same_value(Double::of(0))
}

pub(crate) fn zero(x: Double) -> (r: bool)
    ensures
        r == is_zero(x),
{
    x.equals(Double::from_i64(0))
}

impl CardEffect {
    pub open spec fn nothing(self) -> bool {
        is_zero(self.chips) && is_zero(self.mult) && self.p_dollars == 0 && self.dollars == 0
            && is_zero(self.x_mult) && is_zero(self.edition_chips) && is_zero(self.edition_mult)
            && is_zero(self.edition_x_mult) && is_zero(self.h_mult) && self.h_dollars == 0
            && self.perma_bonus == 0
    }

    pub fn is_empty(&self) -> (r: bool)
        ensures
            r == self.nothing(),
    {
        zero(self.chips) && zero(self.mult) && self.p_dollars == 0 && self.dollars == 0 && zero(
            self.x_mult,
        ) && zero(self.edition_chips) && zero(self.edition_mult) && zero(self.edition_x_mult)
            && zero(self.h_mult) && self.h_dollars == 0 && self.perma_bonus == 0
    }
}

/// A hand that is being scored.
pub struct HandView {
    pub full_hand: Seq<Card>,
    /// The places of the scoring cards.
    pub scoring: Seq<usize>,
    pub hand_type: HandType,
    pub held: Seq<Card>,
    /// Which hands the played cards hold.
    pub holds: spec_fn(HandType) -> bool,
}

impl HandView {
    /// The scoring cards are played cards.
    pub open spec fn valid(self) -> bool {
        handeval::places_below(self.scoring, self.full_hand.len())
    }
}

/// Which hands a selection holds.
pub open spec fn holding(hands: PokerHands) -> spec_fn(HandType) -> bool {
    |ht: HandType| hands.groups(ht).len() > 0
}

/// A hand that is being scored, as the joker hooks see it.
#[derive(Debug)]
pub struct HandCtx<'a> {
    pub full_hand: &'a Vec<Card>,
    pub scoring: &'a Vec<usize>,
    pub hand_type: HandType,
    pub held: &'a Vec<Card>,
    pub poker_hands: &'a PokerHands,
}

impl<'a> View for HandCtx<'a> {
    type V = HandView;

    open spec fn view(&self) -> HandView {
        HandView {
            full_hand: self.full_hand@,
            scoring: self.scoring@,
            hand_type: self.hand_type,
            held: self.held@,
            holds: holding(*self.poker_hands),
        }
    }
}

/// A hand before it is scored: the hooks may change the cards.
#[derive(Debug)]
pub struct BeforeCtx<'a> {
    pub full_hand: Vec<Card>,
    pub scoring: &'a Vec<usize>,
    pub hand_type: HandType,
    pub held: Vec<Card>,
    pub poker_hands: &'a PokerHands,
}

impl<'a> View for BeforeCtx<'a> {
    type V = HandView;

    open spec fn view(&self) -> HandView {
        HandView {
            full_hand: self.full_hand@,
            scoring: self.scoring@,
            hand_type: self.hand_type,
            held: self.held@,
            holds: holding(*self.poker_hands),
        }
    }
}

/// What the hooks make of a hand before it is scored.
pub struct BeforeOutcome<M> {
    pub hooks: M,
    pub full_hand: Seq<Card>,
    pub held: Seq<Card>,
    pub hands: HandsTable,
    pub dollars: i64,
    pub s: Streams,
}

/// What the hooks make of the score once every card was looked at.
pub struct MainOutcome<M> {
    pub hooks: M,
    pub chips: Double,
    pub mult: Double,
    pub dollars: i64,
    pub s: Streams,
}

/// The places in the flow of a round at which jokers act.
///
/// Every hook is a function of the hooks' own state and of what it is shown;
/// the specification functions name it, and scoring is stated over them.
pub trait JokerHooks: Sized {
    /// The state of the hooks.
    type M;

    spec fn model(&self) -> Self::M;

    spec fn at_setting_blind(m: Self::M, s: Streams) -> (Self::M, Streams);

    /// A blind is set.
    fn setting_blind(&mut self, rng: &mut RngState)
        ensures
            (final(self).model(), final(rng)@) == Self::at_setting_blind(
                old(self).model(),
                old(rng)@,
            ),
    ;

    spec fn at_first_hand(m: Self::M) -> Self::M;

    /// The first hand of a round was drawn.
    fn first_hand_drawn(&mut self)
        ensures
            final(self).model() == Self::at_first_hand(old(self).model()),
    ;

    spec fn all_cards_score(m: Self::M) -> bool;

    /// Whether every played card scores.
    fn splash(&self) -> (r: bool)
        ensures
            r == Self::all_cards_score(self.model()),
    ;

    spec fn at_before(
        m: Self::M,
        v: HandView,
        hands: HandsTable,
        dollars: i64,
        s: Streams,
    ) -> BeforeOutcome<Self::M>;

    /// A hand is about to be scored. The played cards may be changed, their
    /// number may not.
    fn before_hand(
        &mut self,
        ctx: &mut BeforeCtx,
        hands: &mut HandsTable,
        dollars: &mut i64,
        rng: &mut RngState,
    )
        requires
            old(ctx)@.valid(),
        ensures
            ({
                let o = Self::at_before(
                    old(self).model(),
                    old(ctx)@,
                    *old(hands),
                    *old(dollars),
                    old(rng)@,
                );
                &&& final(self).model() == o.hooks
                &&& final(ctx).full_hand@ == o.full_hand
                &&& final(ctx).held@ == o.held
                &&& *final(hands) == o.hands
                &&& *final(dollars) == o.dollars
                &&& final(rng)@ == o.s
            }),
            final(ctx).full_hand@.len() == old(ctx).full_hand@.len(),
            final(ctx).scoring == old(ctx).scoring,
            final(ctx).hand_type == old(ctx).hand_type,
            final(ctx).poker_hands == old(ctx).poker_hands,
    ;

    spec fn repetitions(m: Self::M, v: HandView, card: Card, s: Streams) -> (u32, Self::M, Streams);

    /// How often more a scoring card is looked at.
    fn scoring_card_repetitions(&mut self, ctx: &HandCtx, card: &Card, rng: &mut RngState) -> (r: u32)
        requires
            ctx@.valid(),
        ensures
            (r, final(self).model(), final(rng)@) == Self::repetitions(
                old(self).model(),
                ctx@,
                *card,
                old(rng)@,
            ),
    ;

    spec fn on_play(m: Self::M, v: HandView, card: Card, lucky: bool, s: Streams) -> (
        Seq<CardEffect>,
        Self::M,
        Streams,
    );

    /// A scoring card is looked at; `lucky_trigger` if its luck came true.
    fn on_scoring_card(
        &mut self,
        ctx: &HandCtx,
        card: &Card,
        lucky_trigger: bool,
        rng: &mut RngState,
    ) -> (r: Vec<CardEffect>)
        requires
            ctx@.valid(),
        ensures
            (r@, final(self).model(), final(rng)@) == Self::on_play(
                old(self).model(),
                ctx@,
                *card,
                lucky_trigger,
                old(rng)@,
            ),
    ;

    spec fn on_hold(m: Self::M, v: HandView, card: Card, s: Streams) -> (
        Seq<CardEffect>,
        Self::M,
        Streams,
    );

    /// A held card is looked at.
    fn on_held_card(&mut self, ctx: &HandCtx, card: &Card, rng: &mut RngState) -> (r: Vec<
        CardEffect,
    >)
        requires
            ctx@.valid(),
        ensures
            (r@, final(self).model(), final(rng)@) == Self::on_hold(
                old(self).model(),
                ctx@,
                *card,
                old(rng)@,
            ),
    ;

    spec fn held_repetitions(m: Self::M, v: HandView, card: Card, has_effects: bool, s: Streams) -> (
        u32,
        Self::M,
        Streams,
    );

    /// How often more a held card is looked at.
    fn held_card_repetitions(
        &mut self,
        ctx: &HandCtx,
        card: &Card,
        has_effects: bool,
        rng: &mut RngState,
    ) -> (r: u32)
        requires
            ctx@.valid(),
        ensures
            (r, final(self).model(), final(rng)@) == Self::held_repetitions(
                old(self).model(),
                ctx@,
                *card,
                has_effects,
                old(rng)@,
            ),
    ;

    spec fn at_main(
        m: Self::M,
        v: HandView,
        hands: HandsTable,
        chips: Double,
        mult: Double,
        dollars: i64,
        triggered: bool,
        s: Streams,
    ) -> MainOutcome<Self::M>;

    /// The jokers act on their own.
    fn joker_main(
        &mut self,
        ctx: &HandCtx,
        hands: &HandsTable,
        chips: &mut Double,
        mult: &mut Double,
        dollars: &mut i64,
        blind_triggered: bool,
        rng: &mut RngState,
    )
        requires
            ctx@.valid(),
        ensures
            ({
                let o = Self::at_main(
                    old(self).model(),
                    ctx@,
                    *hands,
                    *old(chips),
                    *old(mult),
                    *old(dollars),
                    blind_triggered,
                    old(rng)@,
                );
                &&& final(self).model() == o.hooks
                &&& *final(chips) == o.chips
                &&& *final(mult) == o.mult
                &&& *final(dollars) == o.dollars
                &&& final(rng)@ == o.s
            }),
    ;

    spec fn destroys(m: Self::M, card: Card, full_hand: Seq<Card>, s: Streams) -> (
        bool,
        Self::M,
        Streams,
    );

    /// Whether a scored card is destroyed.
    fn destroys_card(&mut self, card: &Card, full_hand: &Vec<Card>, rng: &mut RngState) -> (r: bool)
        ensures
            (r, final(self).model(), final(rng)@) == Self::destroys(
                old(self).model(),
                *card,
                full_hand@,
                old(rng)@,
            ),
    ;

    spec fn at_destroyed(m: Self::M, destroyed: Seq<Card>) -> Self::M;

    /// Playing cards were destroyed.
    fn on_cards_destroyed(&mut self, destroyed: &Vec<Card>)
        ensures
            final(self).model() == Self::at_destroyed(old(self).model(), destroyed@),
    ;

    spec fn at_after(m: Self::M, v: HandView, s: Streams) -> (Self::M, Streams);

    /// A hand was scored.
    fn after_hand(&mut self, ctx: &HandCtx, rng: &mut RngState)
        requires
            ctx@.valid(),
        ensures
            (final(self).model(), final(rng)@) == Self::at_after(
                old(self).model(),
                ctx@,
                old(rng)@,
            ),
    ;

    spec fn at_debuffed(m: Self::M, v: HandView, triggered: bool, dollars: i64) -> (Self::M, i64);

    /// A hand was refused.
    fn on_debuffed_hand(&mut self, ctx: &HandCtx, blind_triggered: bool, dollars: &mut i64)
        requires
            ctx@.valid(),
        ensures
            (final(self).model(), *final(dollars)) == Self::at_debuffed(
                old(self).model(),
                ctx@,
                blind_triggered,
                *old(dollars),
            ),
    ;

    spec fn at_pre_discard(
        m: Self::M,
        selected: Seq<Card>,
        hook: bool,
        hands: HandsTable,
        mods: EvalMods,
    ) -> (Self::M, HandsTable);

    /// Cards are about to be discarded.
    fn pre_discard(&mut self, selected: &Vec<Card>, hook: bool, hands: &mut HandsTable, mods: &EvalMods)
        ensures
            (final(self).model(), *final(hands)) == Self::at_pre_discard(
                old(self).model(),
                selected@,
                hook,
                *old(hands),
                *mods,
            ),
    ;

    spec fn at_discard(m: Self::M, card: Card, selected: Seq<Card>, dollars: i64, s: Streams) -> (
        bool,
        Self::M,
        i64,
        Streams,
    );

    /// A card is discarded; true if it is destroyed.
    fn on_discard_card(
        &mut self,
        card: &Card,
        selected: &Vec<Card>,
        dollars: &mut i64,
        rng: &mut RngState,
    ) -> (r: bool)
        ensures
            (r, final(self).model(), *final(dollars), final(rng)@) == Self::at_discard(
                old(self).model(),
                *card,
                selected@,
                *old(dollars),
                old(rng)@,
            ),
    ;

    spec fn at_round_end(m: Self::M, hands: HandsTable, game_over: bool, s: Streams) -> (
        bool,
        Self::M,
        Streams,
    );

    /// A round ends; true if a lost run is saved.
    fn end_of_round(&mut self, hands: &HandsTable, game_over: bool, rng: &mut RngState) -> (r: bool)
        ensures
            (r, final(self).model(), final(rng)@) == Self::at_round_end(
                old(self).model(),
                *hands,
                game_over,
                old(rng)@,
            ),
    ;

    spec fn on_round_card(m: Self::M, card: Card, s: Streams) -> (Seq<CardEffect>, Self::M, Streams);

    /// A card held at the end of a round is looked at.
    fn end_of_round_card(&mut self, card: &Card, rng: &mut RngState) -> (r: Vec<CardEffect>)
        ensures
            (r@, final(self).model(), final(rng)@) == Self::on_round_card(
                old(self).model(),
                *card,
                old(rng)@,
            ),
    ;

    spec fn round_repetitions(m: Self::M, card: Card, has_effects: bool) -> (u32, Self::M);

    /// How often more a card held at the end of a round is looked at.
    fn end_of_round_card_repetitions(&mut self, card: &Card, has_effects: bool) -> (r: u32)
        ensures
            (r, final(self).model()) == Self::round_repetitions(
                old(self).model(),
                *card,
                has_effects,
            ),
    ;

    spec fn payouts(m: Self::M) -> (i64, Self::M);

    /// What the jokers pay at cash out.
    fn dollar_bonus(&mut self) -> (r: i64)
        ensures
            (r, final(self).model()) == Self::payouts(old(self).model()),
    ;
}

/// No jokers at all: every hook does nothing.
#[derive(Debug, Clone, Copy, Default)]
pub struct NoJokers;

impl JokerHooks for NoJokers {
    type M = ();

    open spec fn model(&self) -> () {
        ()
    }

    open spec fn at_setting_blind(m: (), s: Streams) -> ((), Streams) {
        ((), s)
    }

    fn setting_blind(&mut self, rng: &mut RngState) {
    }

    open spec fn at_first_hand(m: ()) -> () {
        ()
    }

    fn first_hand_drawn(&mut self) {
    }

    open spec fn all_cards_score(m: ()) -> bool {
        false
    }

    fn splash(&self) -> (r: bool) {
        false
    }

    open spec fn at_before(
        m: (),
        v: HandView,
        hands: HandsTable,
        dollars: i64,
        s: Streams,
    ) -> BeforeOutcome<()> {
        BeforeOutcome { hooks: (), full_hand: v.full_hand, held: v.held, hands, dollars, s }
    }

    fn before_hand(
        &mut self,
        ctx: &mut BeforeCtx,
        hands: &mut HandsTable,
        dollars: &mut i64,
        rng: &mut RngState,
    ) {
    }

    open spec fn repetitions(m: (), v: HandView, card: Card, s: Streams) -> (u32, (), Streams) {
        (0, (), s)
    }

    fn scoring_card_repetitions(&mut self, ctx: &HandCtx, card: &Card, rng: &mut RngState) -> (r: u32) {
        0
    }

    open spec fn on_play(m: (), v: HandView, card: Card, lucky: bool, s: Streams) -> (
        Seq<CardEffect>,
        (),
        Streams,
    ) {
        (seq![], (), s)
    }

    fn on_scoring_card(
        &mut self,
        ctx: &HandCtx,
        card: &Card,
        lucky_trigger: bool,
        rng: &mut RngState,
    ) -> (r: Vec<CardEffect>) {
        let r: Vec<CardEffect> = Vec::new();
        assert(r@ =~= seq![]);
        r
    }

    open spec fn on_hold(m: (), v: HandView, card: Card, s: Streams) -> (Seq<CardEffect>, (), Streams) {
        (seq![], (), s)
    }

    fn on_held_card(&mut self, ctx: &HandCtx, card: &Card, rng: &mut RngState) -> (r: Vec<
        CardEffect,
    >) {
        let r: Vec<CardEffect> = Vec::new();
        assert(r@ =~= seq![]);
        r
    }

    open spec fn held_repetitions(m: (), v: HandView, card: Card, has_effects: bool, s: Streams) -> (
        u32,
        (),
        Streams,
    ) {
        (0, (), s)
    }

    fn held_card_repetitions(
        &mut self,
        ctx: &HandCtx,
        card: &Card,
        has_effects: bool,
        rng: &mut RngState,
    ) -> (r: u32) {
        0
    }

    open spec fn at_main(
        m: (),
        v: HandView,
        hands: HandsTable,
        chips: Double,
        mult: Double,
        dollars: i64,
        triggered: bool,
        s: Streams,
    ) -> MainOutcome<()> {
        MainOutcome { hooks: (), chips, mult, dollars, s }
    }

    fn joker_main(
        &mut self,
        ctx: &HandCtx,
        hands: &HandsTable,
        chips: &mut Double,
        mult: &mut Double,
        dollars: &mut i64,
        blind_triggered: bool,
        rng: &mut RngState,
    ) {
    }

    open spec fn destroys(m: (), card: Card, full_hand: Seq<Card>, s: Streams) -> (bool, (), Streams) {
        (false, (), s)
    }

    fn destroys_card(&mut self, card: &Card, full_hand: &Vec<Card>, rng: &mut RngState) -> (r: bool) {
        false
    }

    open spec fn at_destroyed(m: (), destroyed: Seq<Card>) -> () {
        ()
    }

    fn on_cards_destroyed(&mut self, destroyed: &Vec<Card>) {
    }

    open spec fn at_after(m: (), v: HandView, s: Streams) -> ((), Streams) {
        ((), s)
    }

    fn after_hand(&mut self, ctx: &HandCtx, rng: &mut RngState) {
    }

    open spec fn at_debuffed(m: (), v: HandView, triggered: bool, dollars: i64) -> ((), i64) {
        ((), dollars)
    }

    fn on_debuffed_hand(&mut self, ctx: &HandCtx, blind_triggered: bool, dollars: &mut i64) {
    }

    open spec fn at_pre_discard(
        m: (),
        selected: Seq<Card>,
        hook: bool,
        hands: HandsTable,
        mods: EvalMods,
    ) -> ((), HandsTable) {
        ((), hands)
    }

    fn pre_discard(&mut self, selected: &Vec<Card>, hook: bool, hands: &mut HandsTable, mods: &EvalMods) {
    }

    open spec fn at_discard(m: (), card: Card, selected: Seq<Card>, dollars: i64, s: Streams) -> (
        bool,
        (),
        i64,
        Streams,
    ) {
        (false, (), dollars, s)
    }

    fn on_discard_card(
        &mut self,
        card: &Card,
        selected: &Vec<Card>,
        dollars: &mut i64,
        rng: &mut RngState,
    ) -> (r: bool) {
        false
    }

    open spec fn at_round_end(m: (), hands: HandsTable, game_over: bool, s: Streams) -> (
        bool,
        (),
        Streams,
    ) {
        (false, (), s)
    }

    fn end_of_round(&mut self, hands: &HandsTable, game_over: bool, rng: &mut RngState) -> (r: bool) {
        false
    }

    open spec fn on_round_card(m: (), card: Card, s: Streams) -> (Seq<CardEffect>, (), Streams) {
        (seq![], (), s)
    }

    fn end_of_round_card(&mut self, card: &Card, rng: &mut RngState) -> (r: Vec<CardEffect>) {
        let r: Vec<CardEffect> = Vec::new();
        assert(r@ =~= seq![]);
        r
    }

    open spec fn round_repetitions(m: (), card: Card, has_effects: bool) -> (u32, ()) {
        (0, ())
    }

    fn end_of_round_card_repetitions(&mut self, card: &Card, has_effects: bool) -> (r: u32) {
        0
    }

    open spec fn payouts(m: ()) -> (i64, ()) {
        (0, ())
    }

    fn dollar_bonus(&mut self) -> (r: i64) {
        0
    }
}

/// What a played hand is scored in: everything that scoring changes beside the
/// cards and the jokers.
#[derive(Debug, Clone, Copy, PartialEq, Eq)]
pub struct ScoreContext {
    pub hands: HandsTable,
    pub dollars: i64,
    pub blind: Option<ActiveBlind>,
    /// The hand played most, which the Ox watches.
    pub most_played: HandType,
    pub mods: EvalMods,
    /// 1, doubled by each Oops! All 6s.
    pub prob_normal: Double,
}

/// What came of a played hand.
#[derive(Debug, Clone)]
pub struct PlayResult {
    pub hand_type: HandType,
    /// The places of the scoring cards among the played ones, in order.
    pub scoring: Vec<usize>,
    pub chips: Double,
    pub mult: Double,
    /// Chips times multiplier, rounded down.
    pub score: Double,
    /// The blind refused the hand: it scores nothing.
    pub debuffed_hand: bool,
    /// The places of the cards that were destroyed.
    pub destroyed: Vec<usize>,
    /// Dollars gained or lost while scoring.
    pub dollars_delta: i64,
}

/// What came of a played hand, as it is remembered.
#[verifier::ext_equal]
pub struct PlayModel {
    pub hand_type: HandType,
    pub scoring: Seq<usize>,
    pub chips: Double,
    pub mult: Double,
    pub score: Double,
    pub debuffed_hand: bool,
    pub destroyed: Seq<usize>,
    pub dollars_delta: i64,
}

impl View for PlayResult {
    type V = PlayModel;

    open spec fn view(&self) -> PlayModel {
        PlayModel {
            hand_type: self.hand_type,
            scoring: self.scoring@,
            chips: self.chips,
            mult: self.mult,
            score: self.score,
            debuffed_hand: self.debuffed_hand,
            destroyed: self.destroyed@,
            dollars_delta: self.dollars_delta,
        }
    }
}

/// Whether a Lucky card gives its multiplier, and whether it pays; other cards
/// draw nothing.
pub open spec fn luck(card: Card, prob: Double, s: Streams) -> (bool, bool, Streams) {
    if card.enhancement == Enhancement::Lucky {
        let t = s.after("lucky_mult"@);
        (
            s.unit("lucky_mult"@).below(prob.over(Double::of(5))),
            t.unit("lucky_money"@).below(prob.over(Double::of(15))),
            t.after("lucky_money"@),
        )
    } else {
        (false, false, s)
    }
}

/// A number if it is positive, else zero.
pub open spec fn if_positive(x: Double) -> Double {
    if Double::of(0).below(x) {
        x
    } else {
        Double::of(0)
    }
}

pub open spec fn or_zero(x: Option<Double>) -> Double {
    match x {
        Some(d) => d,
        None => Double::of(0),
    }
}

/// What a scoring card gives by itself, given its luck.
pub open spec fn card_gives(card: Card, lucky_mult: bool, lucky_money: bool) -> CardEffect {
    let (ec, em, ex) = card.edition.mods();
    CardEffect {
        chips: if_positive(card.chip_value()),
        mult: if card.enhancement == Enhancement::Lucky && !lucky_mult {
            Double::of(0)
        } else {
            if_positive(Double::of(card.enhancement.mult_bonus()))
        },
        x_mult: if card.enhancement == Enhancement::Glass {
            Double::of(2)
        } else {
            Double::of(0)
        },
        p_dollars: ((if card.seal == Seal::Gold {
            3int
        } else {
            0
        }) + (if lucky_money {
            20int
        } else {
            0
        })) as i64,
        edition_chips: or_zero(ec),
        edition_mult: or_zero(em),
        edition_x_mult: or_zero(ex),
        ..no_effect()
    }
}

/// What a scoring card gives by itself, and whether its luck came true.
pub open spec fn play_value(card: Card, prob: Double, s: Streams) -> (CardEffect, bool, Streams) {
    if card.debuff {
        (no_effect(), false, s)
    } else {
        let (a, b, t) = luck(card, prob, s);
        (card_gives(card, a, b), a || b, t)
    }
}

fn positive(x: Double) -> (r: Double)
    ensures
        r == if_positive(x),
{
    if Double::from_i64(0).lt(x) {
        x
    } else {
        Double::from_i64(0)
    }
}

fn unwrap_or_zero(x: Option<Double>) -> (r: Double)
    ensures
        r == or_zero(x),
{
    match x {
        Some(d) => d,
        None => Double::from_i64(0),
    }
}

fn eval_card_play(card: &Card, prob_normal: Double, rng: &mut RngState) -> (r: (CardEffect, bool))
    ensures
        (r.0, r.1, final(rng)@) == play_value(*card, prob_normal, old(rng)@),
{
    let mut eff = CardEffect::default();
    let mut lucky_trigger = false;
    if card.debuff {
        return (eff, false);
    }
    eff.chips = positive(card.chip_bonus());
    let is_lucky = card.enhancement == Enhancement::Lucky;
    if is_lucky {
        if rng.random("lucky_mult").lt(prob_normal.div(Double::from_i64(5))) {
            lucky_trigger = true;
            eff.mult = positive(card.enhancement.mult_value());
        }
    } else {
        eff.mult = positive(card.enhancement.mult_value());
    }
    if card.enhancement == Enhancement::Glass {
        eff.x_mult = Double::from_i64(2);
    }
    if card.seal == Seal::Gold {
        eff.p_dollars = 3;
    }
    if is_lucky && rng.random("lucky_money").lt(prob_normal.div(Double::from_i64(15))) {
        lucky_trigger = true;
        eff.p_dollars = eff.p_dollars + 20;
    }
    let (e_chips, e_mult, e_x) = card.edition.scoring_mods();
    eff.edition_chips = unwrap_or_zero(e_chips);
    eff.edition_mult = unwrap_or_zero(e_mult);
    eff.edition_x_mult = unwrap_or_zero(e_x);
    (eff, lucky_trigger)
}

/// What a held card gives by itself: Steel multiplies.
pub open spec fn held_value(card: Card) -> CardEffect {
    if !card.debuff && card.enhancement == Enhancement::Steel {
        CardEffect { x_mult: Double::frac(15, 10), ..no_effect() }
    } else {
        no_effect()
    }
}

fn eval_card_held(card: &Card) -> (r: CardEffect)
    ensures
        r == held_value(*card),
{
    let mut eff = CardEffect::default();
    if !card.debuff && card.enhancement == Enhancement::Steel {
        eff.x_mult = Double::lit(15, 10);
    }
    eff
}

/// The score while cards are looked at.
pub struct Score {
    pub chips: Double,
    pub mult: Double,
    pub dollars: i64,
}

/// A number with a summand, unless that is zero.
pub open spec fn raised_by(x: Double, y: Double) -> Double {
    if is_zero(y) {
        x
    } else {
        x.plus(y)
    }
}

/// A number with a factor, unless that is zero.
pub open spec fn scaled_by(x: Double, y: Double) -> Double {
    if is_zero(y) {
        x
    } else {
        x.times(y)
    }
}

impl CardEffect {
    /// Whether an edition has a part in it.
    pub open spec fn has_edition(self) -> bool {
        !is_zero(self.edition_chips) || !is_zero(self.edition_mult) || !is_zero(
            self.edition_x_mult,
        )
    }

    /// The score after the effect of a played card: chips, multiplier, dollars,
    /// factor, and the edition last.
    pub open spec fn played_on(self, sc: Score) -> Score {
        let m = scaled_by(raised_by(sc.mult, self.mult), self.x_mult);
        let c = raised_by(sc.chips, self.chips);
        Score {
            chips: if self.has_edition() {
                c.plus(self.edition_chips)
            } else {
                c
            },
            mult: if self.has_edition() {
                m.plus(self.edition_mult).times(
                    if is_zero(self.edition_x_mult) {
                        Double::of(1)
                    } else {
                        self.edition_x_mult
                    },
                )
            } else {
                m
            },
            dollars: sc.dollars.wrapping_add(self.p_dollars).wrapping_add(self.dollars),
        }
    }

    /// The score after the effect of a held card: dollars, multiplier, factor.
    pub open spec fn held_on(self, sc: Score) -> Score {
        Score {
            chips: sc.chips,
            mult: scaled_by(raised_by(sc.mult, self.h_mult), self.x_mult),
            dollars: sc.dollars.wrapping_add(self.dollars),
        }
    }
}

fn apply_play_effect(eff: &CardEffect, chips: &mut Double, mult: &mut Double, dollars: &mut i64)
    ensures
        (Score { chips: *final(chips), mult: *final(mult), dollars: *final(dollars) })
            == eff.played_on(
            Score { chips: *old(chips), mult: *old(mult), dollars: *old(dollars) },
        ),
{
    if !zero(eff.chips) {
        *chips = chips.add(eff.chips);
    }
    if !zero(eff.mult) {
        *mult = mult.add(eff.mult);
    }
    *dollars = dollars.wrapping_add(eff.p_dollars);
    *dollars = dollars.wrapping_add(eff.dollars);
    if !zero(eff.x_mult) {
        *mult = mult.mul(eff.x_mult);
    }
    if !zero(eff.edition_chips) || !zero(eff.edition_mult) || !zero(eff.edition_x_mult) {
        *chips = chips.add(eff.edition_chips);
        *mult = mult.add(eff.edition_mult);
        let factor = if zero(eff.edition_x_mult) {
            Double::from_i64(1)
        } else {
            eff.edition_x_mult
        };
        *mult = mult.mul(factor);
    }
}

fn apply_held_effect(eff: &CardEffect, mult: &mut Double, dollars: &mut i64)
    ensures
        forall|chips: Double|
            (Score { chips, mult: *final(mult), dollars: *final(dollars) })
                == #[trigger] eff.held_on(
                Score { chips, mult: *old(mult), dollars: *old(dollars) },
            ),
{
    *dollars = dollars.wrapping_add(eff.dollars);
    if !zero(eff.h_mult) {
        *mult = mult.add(eff.h_mult);
    }
    if !zero(eff.x_mult) {
        *mult = mult.mul(eff.x_mult);
    }
}

/// A hand while it is scored: the state of the hooks, the context, the played
/// and the held cards, the score, and the streams.
#[verifier::ext_equal]
pub struct Scoring<M> {
    pub hooks: M,
    pub ctx: ScoreContext,
    pub play: Seq<Card>,
    pub held: Seq<Card>,
    pub chips: Double,
    pub mult: Double,
    pub s: Streams,
}

impl<M> Scoring<M> {
    /// The hand as the hooks see it.
    pub open spec fn seen(self, base: HandView) -> HandView {
        HandView { full_hand: self.play, held: self.held, ..base }
    }

    pub open spec fn score(self) -> Score {
        Score { chips: self.chips, mult: self.mult, dollars: self.ctx.dollars }
    }

    pub open spec fn with_score(self, sc: Score) -> Scoring<M> {
        Scoring {
            chips: sc.chips,
            mult: sc.mult,
            ctx: ScoreContext { dollars: sc.dollars, ..self.ctx },
            ..self
        }
    }

    /// The first `n` effects of jokers come over the played card in place `at`:
    /// each changes the score, and may add chips to the card for good.
    pub open spec fn after_effects(self, at: usize, effs: Seq<CardEffect>, n: nat) -> Scoring<M>
        decreases n,
    {
        if n == 0 {
            self
        } else {
            let st = self.after_effects(at, effs, (n - 1) as nat);
            let card = st.play[at as int];
            let eff = effs[n - 1];
            Scoring {
                play: st.play.update(
                    at as int,
                    Card { perma_bonus: card.perma_bonus.wrapping_add(eff.perma_bonus), ..card },
                ),
                ..st.with_score(eff.played_on(st.score()))
            }
        }
    }

    /// The first `n` effects of jokers come over a held card.
    pub open spec fn after_held_effects(self, effs: Seq<CardEffect>, n: nat) -> Scoring<M>
        decreases n,
    {
        if n == 0 {
            self
        } else {
            let st = self.after_held_effects(effs, (n - 1) as nat);
            st.with_score(effs[n - 1].held_on(st.score()))
        }
    }
}

/// The played card in place `at` is looked at once.
pub open spec fn scored_once<H: JokerHooks>(st: Scoring<H::M>, base: HandView, at: usize) -> Scoring<
    H::M,
> {
    let card = st.play[at as int];
    let (eff, lucky, s) = play_value(card, st.ctx.prob_normal, st.s);
    let (effs, hooks, s2) = H::on_play(st.hooks, st.seen(base), card, lucky, s);
    let here = Scoring { hooks, s: s2, ..st };
    here.with_score(eff.played_on(here.score())).after_effects(at, effs, effs.len())
}

/// The played card in place `at` is looked at `n` times.
pub open spec fn scored_times<H: JokerHooks>(
    st: Scoring<H::M>,
    base: HandView,
    at: usize,
    n: nat,
) -> Scoring<H::M>
    decreases n,
{
    if n == 0 {
        st
    } else {
        scored_once::<H>(scored_times::<H>(st, base, at, (n - 1) as nat), base, at)
    }
}

/// The played card in place `at` scores: a debuffed card only triggers the
/// blind, any other is looked at once, once more for a red seal, and as often
/// more as the hooks say.
pub open spec fn scored_card<H: JokerHooks>(st: Scoring<H::M>, base: HandView, at: usize) -> Scoring<
    H::M,
> {
    let card = st.play[at as int];
    if card.debuff {
        Scoring {
            ctx: ScoreContext {
                blind: match st.ctx.blind {
                    Some(b) => Some(ActiveBlind { triggered: true, ..b }),
                    None => None,
                },
                ..st.ctx
            },
            ..st
        }
    } else {
        let (more, hooks, s) = H::repetitions(st.hooks, st.seen(base), card, st.s);
        let red = if card.seal == Seal::Red {
            1nat
        } else {
            0
        };
        scored_times::<H>(Scoring { hooks, s, ..st }, base, at, 1 + red + more as nat)
    }
}

/// The first `n` scoring cards score, in order.
pub open spec fn scored_cards<H: JokerHooks>(st: Scoring<H::M>, base: HandView, n: nat) -> Scoring<
    H::M,
>
    decreases n,
{
    if n == 0 {
        st
    } else {
        scored_card::<H>(
            scored_cards::<H>(st, base, (n - 1) as nat),
            base,
            base.scoring[n - 1],
        )
    }
}

/// A held card is looked at once more.
pub open spec fn held_once<H: JokerHooks>(st: Scoring<H::M>, base: HandView, card: Card) -> Scoring<
    H::M,
> {
    let (effs, hooks, s) = H::on_hold(st.hooks, st.seen(base), card, st.s);
    let here = Scoring { hooks, s, ..st };
    here.with_score(held_value(card).held_on(here.score())).after_held_effects(effs, effs.len())
}

/// A held card is looked at `n` times more.
pub open spec fn held_times<H: JokerHooks>(
    st: Scoring<H::M>,
    base: HandView,
    card: Card,
    n: nat,
) -> Scoring<H::M>
    decreases n,
{
    if n == 0 {
        st
    } else {
        held_once::<H>(held_times::<H>(st, base, card, (n - 1) as nat), base, card)
    }
}

/// A held card is looked at once, and if it has any effect, once more for a red
/// seal and as often more as the hooks say.
pub open spec fn held_card<H: JokerHooks>(st: Scoring<H::M>, base: HandView, card: Card) -> Scoring<
    H::M,
> {
    let (effs, hooks, s) = H::on_hold(st.hooks, st.seen(base), card, st.s);
    let has = !held_value(card).nothing() || effs.len() > 0;
    let (more, hooks2, s2) = H::held_repetitions(hooks, st.seen(base), card, has, s);
    let red = if card.seal == Seal::Red && !card.debuff && has {
        1nat
    } else {
        0
    };
    let here = Scoring { hooks: hooks2, s: s2, ..st };
    held_times::<H>(
        here.with_score(held_value(card).held_on(here.score())).after_held_effects(
            effs,
            effs.len(),
        ),
        base,
        card,
        red + more as nat,
    )
}

/// The first `n` held cards have their effects, in order.
pub open spec fn held_cards<H: JokerHooks>(st: Scoring<H::M>, base: HandView, n: nat) -> Scoring<
    H::M,
>
    decreases n,
{
    if n == 0 {
        st
    } else {
        let before = held_cards::<H>(st, base, (n - 1) as nat);
        held_card::<H>(before, base, st.held[n - 1])
    }
}

/// A hand on the way: everything that scoring works on.
struct Scorer {
    ctx: ScoreContext,
    play: Vec<Card>,
    held: Vec<Card>,
    scoring: Vec<usize>,
    hand_type: HandType,
    poker_hands: PokerHands,
    chips: Double,
    mult: Double,
}

impl Scorer {
    spec fn base(self) -> HandView {
        HandView {
            full_hand: seq![],
            scoring: self.scoring@,
            hand_type: self.hand_type,
            held: seq![],
            holds: holding(self.poker_hands),
        }
    }

    spec fn state<H: JokerHooks>(self, hooks: H, s: Streams) -> Scoring<H::M> {
        Scoring {
            hooks: hooks.model(),
            ctx: self.ctx,
            play: self.play@,
            held: self.held@,
            chips: self.chips,
            mult: self.mult,
            s,
        }
    }

    /// The scoring cards are played cards.
    spec fn valid(self) -> bool {
        handeval::places_below(self.scoring@, self.play@.len())
    }

    /// Which cards score, and as what, stays.
    spec fn same_hand(self, other: Scorer) -> bool {
        &&& self.scoring@ == other.scoring@
        &&& self.hand_type == other.hand_type
        &&& self.poker_hands == other.poker_hands
        &&& self.play@.len() == other.play@.len()
    }

    fn apply_effects<H: JokerHooks>(
        &mut self,
        at: usize,
        effs: &Vec<CardEffect>,
        hooks: &H,
        rng: &RngState,
    )
        requires
            at < old(self).play.len(),
        ensures
            final(self).state(*hooks, rng@) == old(self).state(*hooks, rng@).after_effects(
                at,
                effs@,
                effs@.len(),
            ),
            final(self).same_hand(*old(self)),
    {
        let mut k: usize = 0;
        while k < effs.len()
            invariant
                k <= effs.len(),
                at < self.play.len(),
                self.same_hand(*old(self)),
                self.state(*hooks, rng@) == old(self).state(*hooks, rng@).after_effects(
                    at,
                    effs@,
                    k as nat,
                ),
            decreases effs.len() - k,
        {
            let eff = effs[k];
            apply_play_effect(&eff, &mut self.chips, &mut self.mult, &mut self.ctx.dollars);
            let mut card = self.play[at];
            card.perma_bonus = card.perma_bonus.wrapping_add(eff.perma_bonus);
            self.play.set(at, card);
            k = k + 1;
        }
    }

    fn apply_held_effects<H: JokerHooks>(&mut self, effs: &Vec<CardEffect>, hooks: &H, rng: &RngState)
        ensures
            final(self).state(*hooks, rng@) == old(self).state(*hooks, rng@).after_held_effects(
                effs@,
                effs@.len(),
            ),
            final(self).same_hand(*old(self)),
            final(self).held@ == old(self).held@,
    {
        let mut k: usize = 0;
        while k < effs.len()
            invariant
                k <= effs.len(),
                self.same_hand(*old(self)),
                self.held@ == old(self).held@,
                self.state(*hooks, rng@) == old(self).state(*hooks, rng@).after_held_effects(
                    effs@,
                    k as nat,
                ),
            decreases effs.len() - k,
        {
            let ghost st = self.state(*hooks, rng@);
            apply_held_effect(&effs[k], &mut self.mult, &mut self.ctx.dollars);
            assert(effs@[k as int].held_on(st.score()).chips == st.chips);
            k = k + 1;
        }
    }

    fn score_once<H: JokerHooks>(&mut self, at: usize, rng: &mut RngState, hooks: &mut H)
        requires
            at < old(self).play.len(),
            old(self).valid(),
        ensures
            final(self).state(*final(hooks), final(rng)@) == scored_once::<H>(
                old(self).state(*old(hooks), old(rng)@),
                old(self).base(),
                at,
            ),
            final(self).same_hand(*old(self)),
    {
        let card = self.play[at];
        let (eff, lucky) = eval_card_play(&card, self.ctx.prob_normal, rng);
        let hctx = HandCtx {
            full_hand: &self.play,
            scoring: &self.scoring,
            hand_type: self.hand_type,
            held: &self.held,
            poker_hands: &self.poker_hands,
        };
        let effs = hooks.on_scoring_card(&hctx, &card, lucky, rng);
        apply_play_effect(&eff, &mut self.chips, &mut self.mult, &mut self.ctx.dollars);
        self.apply_effects(at, &effs, hooks, rng);
    }

    fn score_card<H: JokerHooks>(&mut self, at: usize, rng: &mut RngState, hooks: &mut H)
        requires
            at < old(self).play.len(),
            old(self).valid(),
        ensures
            final(self).state(*final(hooks), final(rng)@) == scored_card::<H>(
                old(self).state(*old(hooks), old(rng)@),
                old(self).base(),
                at,
            ),
            final(self).same_hand(*old(self)),
    {
        let card = self.play[at];
        if card.debuff {
            if let Some(b) = self.ctx.blind {
                self.ctx.blind = Some(ActiveBlind { triggered: true, ..b });
            }
            return ;
        }
        let hctx = HandCtx {
            full_hand: &self.play,
            scoring: &self.scoring,
            hand_type: self.hand_type,
            held: &self.held,
            poker_hands: &self.poker_hands,
        };
        let more: u32 = hooks.scoring_card_repetitions(&hctx, &card, rng);
        let mut reps: u64 = 1 + more as u64;
        if card.seal == Seal::Red {
            reps = reps + 1;
        }
        let ghost st = self.state(*hooks, rng@);
        let ghost base = self.base();
        let mut k: u64 = 0;
        while k < reps
            invariant
                k <= reps,
                at < self.play.len(),
                self.valid(),
                self.same_hand(*old(self)),
                base == self.base(),
                self.state(*hooks, rng@) == scored_times::<H>(st, base, at, k as nat),
            decreases reps - k,
        {
            self.score_once(at, rng, hooks);
            k = k + 1;
        }
    }

    fn score_cards<H: JokerHooks>(&mut self, rng: &mut RngState, hooks: &mut H)
        requires
            old(self).valid(),
        ensures
            final(self).state(*final(hooks), final(rng)@) == scored_cards::<H>(
                old(self).state(*old(hooks), old(rng)@),
                old(self).base(),
                old(self).scoring@.len(),
            ),
            final(self).same_hand(*old(self)),
    {
        let ghost st = self.state(*hooks, rng@);
        let ghost base = self.base();
        let mut k: usize = 0;
        while k < self.scoring.len()
            invariant
                k <= self.scoring.len(),
                self.valid(),
                self.same_hand(*old(self)),
                base == self.base(),
                self.state(*hooks, rng@) == scored_cards::<H>(st, base, k as nat),
            decreases self.scoring.len() - k,
        {
            let at: usize = self.scoring[k];
            self.score_card(at, rng, hooks);
            k = k + 1;
        }
    }

    fn hold_once<H: JokerHooks>(&mut self, card: &Card, rng: &mut RngState, hooks: &mut H)
        requires
            old(self).valid(),
        ensures
            final(self).state(*final(hooks), final(rng)@) == held_once::<H>(
                old(self).state(*old(hooks), old(rng)@),
                old(self).base(),
                *card,
            ),
            final(self).same_hand(*old(self)),
            final(self).held@ == old(self).held@,
    {
        let eff = eval_card_held(card);
        let hctx = HandCtx {
            full_hand: &self.play,
            scoring: &self.scoring,
            hand_type: self.hand_type,
            held: &self.held,
            poker_hands: &self.poker_hands,
        };
        let effs = hooks.on_held_card(&hctx, card, rng);
        let ghost st = self.state(*hooks, rng@);
        apply_held_effect(&eff, &mut self.mult, &mut self.ctx.dollars);
        assert(eff.held_on(st.score()).chips == st.chips);
        self.apply_held_effects(&effs, hooks, rng);
    }

    fn hold_card<H: JokerHooks>(&mut self, card: &Card, rng: &mut RngState, hooks: &mut H)
        requires
            old(self).valid(),
        ensures
            final(self).state(*final(hooks), final(rng)@) == held_card::<H>(
                old(self).state(*old(hooks), old(rng)@),
                old(self).base(),
                *card,
            ),
            final(self).same_hand(*old(self)),
            final(self).held@ == old(self).held@,
    {
        let eff = eval_card_held(card);
        let hctx = HandCtx {
            full_hand: &self.play,
            scoring: &self.scoring,
            hand_type: self.hand_type,
            held: &self.held,
            poker_hands: &self.poker_hands,
        };
        let effs = hooks.on_held_card(&hctx, card, rng);
        let has_effects = !eff.is_empty() || effs.len() > 0;
        let more: u32 = hooks.held_card_repetitions(&hctx, card, has_effects, rng);
        let mut reps: u64 = more as u64;
        if card.seal == Seal::Red && !card.debuff && has_effects {
            reps = reps + 1;
        }
        let ghost here = self.state(*hooks, rng@);
        apply_held_effect(&eff, &mut self.mult, &mut self.ctx.dollars);
        assert(eff.held_on(here.score()).chips == here.chips);
        self.apply_held_effects(&effs, hooks, rng);
        let ghost st = self.state(*hooks, rng@);
        let ghost base = self.base();
        let mut k: u64 = 0;
        while k < reps
            invariant
                k <= reps,
                self.valid(),
                self.same_hand(*old(self)),
                self.held@ == old(self).held@,
                base == self.base(),
                self.state(*hooks, rng@) == held_times::<H>(st, base, *card, k as nat),
            decreases reps - k,
        {
            self.hold_once(card, rng, hooks);
            k = k + 1;
        }
    }

    fn hold_cards<H: JokerHooks>(&mut self, rng: &mut RngState, hooks: &mut H)
        requires
            old(self).valid(),
        ensures
            final(self).state(*final(hooks), final(rng)@) == held_cards::<H>(
                old(self).state(*old(hooks), old(rng)@),
                old(self).base(),
                old(self).held@.len(),
            ),
            final(self).same_hand(*old(self)),
    {
        let ghost st = self.state(*hooks, rng@);
        let ghost base = self.base();
        let mut k: usize = 0;
        while k < self.held.len()
            invariant
                k <= self.held.len(),
                self.valid(),
                self.same_hand(*old(self)),
                self.held@ == old(self).held@,
                st.held == self.held@,
                base == self.base(),
                self.state(*hooks, rng@) == held_cards::<H>(st, base, k as nat),
            decreases self.held.len() - k,
        {
            let card = self.held[k];
            self.hold_card(&card, rng, hooks);
            k = k + 1;
        }
    }
}

/// Scoring cards being destroyed: the state of the hooks, the places of the
/// destroyed cards, and the streams.
pub struct Breaking<M> {
    pub hooks: M,
    pub destroyed: Seq<usize>,
    pub s: Streams,
}

/// Which of the first `n` scoring cards are destroyed: the hooks may destroy
/// any, and a Glass card that is not debuffed may break.
pub open spec fn broken<H: JokerHooks>(st: Scoring<H::M>, base: HandView, n: nat) -> Breaking<H::M>
    decreases n,
{
    if n == 0 {
        Breaking { hooks: st.hooks, destroyed: seq![], s: st.s }
    } else {
        let b = broken::<H>(st, base, (n - 1) as nat);
        let at = base.scoring[n - 1];
        let card = st.play[at as int];
        let (d, hooks, s) = H::destroys(b.hooks, card, st.play, b.s);
        let rolls = card.enhancement == Enhancement::Glass && !card.debuff;
        let breaks = rolls && s.unit("glass"@).below(st.ctx.prob_normal.over(Double::of(4)));
        Breaking {
            hooks,
            destroyed: if d || breaks {
                b.destroyed.push(at)
            } else {
                b.destroyed
            },
            s: if rolls {
                s.after("glass"@)
            } else {
                s
            },
        }
    }
}

/// The cards in some places of a list.
pub open spec fn cards_at(cards: Seq<Card>, places: Seq<usize>) -> Seq<Card> {
    Seq::new(places.len(), |i: int| cards[places[i] as int])
}

impl Scorer {
    fn destroy_cards<H: JokerHooks>(&self, rng: &mut RngState, hooks: &mut H) -> (r: Vec<usize>)
        requires
            self.valid(),
        ensures
            (Breaking { hooks: final(hooks).model(), destroyed: r@, s: final(rng)@ }) == broken::<
                H,
            >(self.state(*old(hooks), old(rng)@), self.base(), self.scoring@.len()),
            handeval::places_below(r@, self.play@.len()),
    {
        let ghost st = self.state(*hooks, rng@);
        let mut destroyed: Vec<usize> = Vec::new();
        assert(destroyed@ =~= seq![]);
        let mut k: usize = 0;
        while k < self.scoring.len()
            invariant
                k <= self.scoring.len(),
                self.valid(),
                st.play == self.play@,
                st.ctx == self.ctx,
                handeval::places_below(destroyed@, self.play@.len()),
                (Breaking { hooks: hooks.model(), destroyed: destroyed@, s: rng@ }) == broken::<H>(
                    st,
                    self.base(),
                    k as nat,
                ),
            decreases self.scoring.len() - k,
        {
            let at: usize = self.scoring[k];
            let card = self.play[at];
            let mut d = hooks.destroys_card(&card, &self.play, rng);
            if card.enhancement == Enhancement::Glass && !card.debuff {
                let roll = rng.random("glass");
                if roll.lt(self.ctx.prob_normal.div(Double::from_i64(4))) {
                    d = true;
                }
            }
            if d {
                destroyed.push(at);
            }
            k = k + 1;
        }
        destroyed
    }

    fn cards_at(&self, places: &Vec<usize>) -> (r: Vec<Card>)
        requires
            handeval::places_below(places@, self.play@.len()),
        ensures
            r@ == cards_at(self.play@, places@),
    {
        let mut cards: Vec<Card> = Vec::new();
        let mut k: usize = 0;
        while k < places.len()
            invariant
                k <= places.len(),
                handeval::places_below(places@, self.play@.len()),
                cards@ == cards_at(self.play@, places@).take(k as int),
            decreases places.len() - k,
        {
            cards.push(self.play[places[k]]);
            assert(cards_at(self.play@, places@).take(k as int + 1) =~= cards_at(
                self.play@,
                places@,
            ).take(k as int).push(cards_at(self.play@, places@)[k as int]));
            k = k + 1;
        }
        assert(cards_at(self.play@, places@).take(k as int) =~= cards_at(self.play@, places@));
        cards
    }
}

/// The order of places.
pub open spec fn place_leq() -> spec_fn(usize, usize) -> bool {
    |a: usize, b: usize| a <= b
}

/// A group of played cards together with the Stone cards among the first `n`.
pub open spec fn with_stones(play: Seq<Card>, group: Seq<usize>, n: nat) -> Seq<usize>
    decreases n,
{
    if n == 0 {
        group
    } else {
        let rest = with_stones(play, group, (n - 1) as nat);
        if play[n - 1].enhancement == Enhancement::Stone && !rest.contains((n - 1) as usize) {
            rest.push((n - 1) as usize)
        } else {
            rest
        }
    }
}

/// The places of the cards that score, in order: all of them, or those that
/// make up the hand and the Stone cards.
pub open spec fn scoring_places(play: Seq<Card>, mods: EvalMods, all: bool) -> Seq<usize> {
    if all {
        Seq::new(play.len(), |i: int| i as usize)
    } else {
        order::sorted(
            with_stones(play, handeval::played_group(play, mods), play.len()),
            place_leq(),
        )
    }
}

proof fn lemma_stones_below(play: Seq<Card>, group: Seq<usize>, n: nat)
    requires
        n <= play.len() <= usize::MAX,
        handeval::places_below(group, play.len()),
    ensures
        handeval::places_below(with_stones(play, group, n), play.len()),
    decreases n,
{
    if n > 0 {
        lemma_stones_below(play, group, (n - 1) as nat);
    }
}

/// The scoring cards are played cards.
pub proof fn law_scoring_cards_are_played(play: Seq<Card>, mods: EvalMods, all: bool)
    requires
        play.len() <= usize::MAX,
    ensures
        handeval::places_below(scoring_places(play, mods, all), play.len()),
{
    if !all {
        broadcast use vstd::seq_lib::group_to_multiset_ensures;

        let group = handeval::played_group(play, mods);
        handeval::law_played_group_is_of_the_hand(play, mods);
        lemma_stones_below(play, group, play.len());
        let list = with_stones(play, group, play.len());
        let sorted = order::sorted(list, place_leq());
        order::lemma_sorted_permutes(list, place_leq());
        assert forall|i: int| 0 <= i < sorted.len() implies #[trigger] sorted[i] < play.len() by {
            assert(sorted.contains(sorted[i]));
            assert(sorted.to_multiset().count(sorted[i]) > 0);
            assert(list.contains(sorted[i]));
        }
    }
}

proof fn lemma_stones_held(play: Seq<Card>, group: Seq<usize>, n: nat)
    requires
        n <= play.len() <= usize::MAX,
        group.no_duplicates(),
    ensures
        with_stones(play, group, n).no_duplicates(),
        forall|x: usize| #[trigger]
            with_stones(play, group, n).contains(x) <==> group.contains(x) || (x < n
                && play[x as int].enhancement == Enhancement::Stone),
    decreases n,
{
    if n > 0 {
        lemma_stones_held(play, group, (n - 1) as nat);
        let rest = with_stones(play, group, (n - 1) as nat);
        let q = (n - 1) as usize;
        assert forall|x: usize| #[trigger]
            with_stones(play, group, n).contains(x) <==> group.contains(x) || (x < n
                && play[x as int].enhancement == Enhancement::Stone) by {
            if rest.contains(x) {
                let k = choose|k: int| 0 <= k < rest.len() && rest[k] == x;
                assert(rest.push(q)[k] == x);
            }
            assert(rest.push(q)[rest.len() as int] == q);
        }
    }
}

/// The scoring cards ascend, none named twice. They are the cards of the hand
/// played and every Stone card, or all cards.
pub proof fn law_scoring_cards_ascend(play: Seq<Card>, mods: EvalMods, all: bool)
    requires
        play.len() <= usize::MAX,
    ensures
        forall|i: int, j: int|
            0 <= i < j < scoring_places(play, mods, all).len() ==> (#[trigger] scoring_places(
                play,
                mods,
                all,
            )[i]) < (#[trigger] scoring_places(play, mods, all)[j]),
        forall|x: usize| #[trigger]
            scoring_places(play, mods, all).contains(x) <==> if all {
                x < play.len()
            } else {
                handeval::played_group(play, mods).contains(x) || (x < play.len()
                    && play[x as int].enhancement == Enhancement::Stone)
            },
{
    let places = scoring_places(play, mods, all);
    if all {
        assert forall|x: usize| #[trigger] places.contains(x) <==> x < play.len() by {
            if x < play.len() {
                assert(places[x as int] == x);
            }
        }
    } else {
        broadcast use vstd::seq_lib::group_to_multiset_ensures;

        let group = handeval::played_group(play, mods);
        handeval::law_played_group_names_cards_once(play, mods);
        lemma_stones_held(play, group, play.len());
        let list = with_stones(play, group, play.len());
        order::lemma_sorted_permutes(list, place_leq());
        order::lemma_sorted_ascending(list, place_leq());
        list.lemma_multiset_has_no_duplicates();
        places.lemma_multiset_has_no_duplicates_conv();
        assert forall|x: usize| #[trigger] places.contains(x) <==> list.contains(x) by {
            assert(places.to_multiset().count(x) == list.to_multiset().count(x));
        }
        assert forall|i: int, j: int| 0 <= i < j < places.len() implies (#[trigger] places[i]) < (
        #[trigger] places[j]) by {
            assert(place_leq()(places[i], places[j]));
        }
    }
}

/// Whether a list names a place.
pub(crate) fn has_place(list: &Vec<usize>, x: usize) -> (r: bool)
    ensures
        r == list@.contains(x),
{
    let mut i: usize = 0;
    while i < list.len()
        invariant
            i <= list.len(),
            forall|k: int| 0 <= k < i ==> #[trigger] list@[k] != x,
        decreases list.len() - i,
    {
        if list[i] == x {
            return true;
        }
        i = i + 1;
    }
    false
}

fn places_that_score(play: &Vec<Card>, group: Vec<usize>, all: bool) -> (r: Vec<usize>)
    ensures
        forall|mods: EvalMods|
            group@ == #[trigger] handeval::played_group(play@, mods) ==> r@ == scoring_places(
                play@,
                mods,
                all,
            ),
{
    if all {
        let mut list: Vec<usize> = Vec::new();
        let mut i: usize = 0;
        while i < play.len()
            invariant
                i <= play.len(),
                list@ == Seq::new(i as nat, |k: int| k as usize),
            decreases play.len() - i,
        {
            list.push(i);
            i = i + 1;
            assert(list@ =~= Seq::new(i as nat, |k: int| k as usize));
        }
        return list;
    }
    let mut list: Vec<usize> = group;
    let mut i: usize = 0;
    while i < play.len()
        invariant
            i <= play.len(),
            list@ == with_stones(play@, group@, i as nat),
        decreases play.len() - i,
    {
        if play[i].enhancement == Enhancement::Stone && !has_place(&list, i) {
            list.push(i);
        }
        i = i + 1;
    }
    let le = |a: &usize, b: &usize| -> (c: bool)
        ensures
            c == place_leq()(*a, *b),
        { *a <= *b };
    order::stable_sort(&list, le, Ghost(place_leq()))
}

/// Which hands a selection holds.
pub open spec fn hands_in(play: Seq<Card>, mods: EvalMods) -> spec_fn(HandType) -> bool {
    |ht: HandType| handeval::hand_groups(play, mods, ht).len() > 0
}

/// Whether a blind was triggered.
pub open spec fn is_triggered(blind: Option<ActiveBlind>) -> bool {
    blind matches Some(b) && b.triggered
}

/// A hand that the blind refused: no score.
pub open spec fn refused<H: JokerHooks>(st: Scoring<H::M>, base: HandView) -> Scoring<H::M> {
    let (hooks, dollars) = H::at_debuffed(
        st.hooks,
        st.seen(base),
        is_triggered(st.ctx.blind),
        st.ctx.dollars,
    );
    Scoring { hooks, ctx: ScoreContext { dollars, ..st.ctx }, ..st }
}

/// The base values of a hand, once the hooks had their say and the blind
/// changed them.
pub open spec fn opened<H: JokerHooks>(st: Scoring<H::M>, base: HandView) -> Scoring<H::M> {
    let o = H::at_before(st.hooks, st.seen(base), st.ctx.hands, st.ctx.dollars, st.s);
    let row = o.hands.row(base.hand_type);
    let halved = st.ctx.blind matches Some(b) && b.halves();
    Scoring {
        hooks: o.hooks,
        ctx: ScoreContext {
            hands: o.hands,
            dollars: o.dollars,
            blind: if halved {
                Some(ActiveBlind { triggered: true, ..st.ctx.blind.unwrap() })
            } else {
                st.ctx.blind
            },
            ..st.ctx
        },
        play: o.full_hand,
        held: o.held,
        chips: if halved {
            ActiveBlind::halved(row.chips, 0)
        } else {
            row.chips
        },
        mult: if halved {
            ActiveBlind::halved(row.mult, 1)
        } else {
            row.mult
        },
        s: o.s,
    }
}

/// The score after the played cards, the held cards and the jokers.
pub open spec fn totalled<H: JokerHooks>(st: Scoring<H::M>, base: HandView) -> Scoring<H::M> {
    let scored = scored_cards::<H>(st, base, base.scoring.len());
    let held = held_cards::<H>(scored, base, scored.held.len());
    let o = H::at_main(
        held.hooks,
        held.seen(base),
        held.ctx.hands,
        held.chips,
        held.mult,
        held.ctx.dollars,
        is_triggered(held.ctx.blind),
        held.s,
    );
    Scoring {
        hooks: o.hooks,
        ctx: ScoreContext { dollars: o.dollars, ..held.ctx },
        chips: o.chips,
        mult: o.mult,
        s: o.s,
        ..held
    }
}

/// The hooks learn of destroyed cards, if there are any.
pub open spec fn mourned<H: JokerHooks>(hooks: H::M, play: Seq<Card>, destroyed: Seq<usize>) -> H::M {
    if destroyed.len() > 0 {
        H::at_destroyed(hooks, cards_at(play, destroyed))
    } else {
        hooks
    }
}

/// What comes of a played hand.
#[verifier::ext_equal]
pub struct Played<M> {
    /// The state at the end.
    pub end: Scoring<M>,
    pub hand_type: HandType,
    pub scoring: Seq<usize>,
    pub debuffed: bool,
    pub destroyed: Seq<usize>,
}

/// The blind judges a hand that was just counted.
pub open spec fn judged(ctx: ScoreContext, played: nat, ht: HandType) -> (ScoreContext, bool) {
    let hands = ctx.hands.after_play(ht);
    match ctx.blind {
        Some(b) => {
            let v = b.verdict(played, ht, hands, ctx.dollars, ctx.most_played);
            (
                ScoreContext { hands: v.hands, dollars: v.dollars, blind: Some(v.blind), ..ctx },
                v.debuffed,
            )
        },
        None => (ScoreContext { hands, ..ctx }, false),
    }
}

/// The hand that is played, before anything is scored.
pub open spec fn hand_shown(play: Seq<Card>, mods: EvalMods, all: bool) -> HandView {
    HandView {
        full_hand: seq![],
        scoring: scoring_places(play, mods, all),
        hand_type: handeval::played_hand(play, mods),
        held: seq![],
        holds: hands_in(play, mods),
    }
}

/// A hand is played: it is counted, the blind judges it, and unless it is
/// refused, it is scored; then the hooks see it scored.
pub open spec fn played<H: JokerHooks>(
    ctx: ScoreContext,
    play: Seq<Card>,
    held: Seq<Card>,
    hooks: H::M,
    s: Streams,
) -> Played<H::M> {
    let base = hand_shown(play, ctx.mods, H::all_cards_score(hooks));
    let (ctx1, debuffed) = judged(ctx, play.len(), base.hand_type);
    let zero = Double::of(0);
    let st = Scoring { hooks, ctx: ctx1, play, held, chips: zero, mult: zero, s };
    let (scored, destroyed) = if debuffed {
        (refused::<H>(st, base), Seq::<usize>::empty())
    } else {
        let t = totalled::<H>(opened::<H>(st, base), base);
        let b = broken::<H>(t, base, base.scoring.len());
        (
            Scoring { hooks: mourned::<H>(b.hooks, t.play, b.destroyed), s: b.s, ..t },
            b.destroyed,
        )
    };
    let (hooks2, s2) = H::at_after(scored.hooks, scored.seen(base), scored.s);
    Played {
        end: Scoring { hooks: hooks2, s: s2, ..scored },
        hand_type: base.hand_type,
        scoring: base.scoring,
        debuffed,
        destroyed,
    }
}

impl Scorer {
    fn open<H: JokerHooks>(&mut self, rng: &mut RngState, hooks: &mut H)
        requires
            old(self).valid(),
        ensures
            final(self).state(*final(hooks), final(rng)@) == opened::<H>(
                old(self).state(*old(hooks), old(rng)@),
                old(self).base(),
            ),
            final(self).same_hand(*old(self)),
    {
        let mut full_hand: Vec<Card> = Vec::new();
        let mut held: Vec<Card> = Vec::new();
        std::mem::swap(&mut full_hand, &mut self.play);
        std::mem::swap(&mut held, &mut self.held);
        let mut bctx = BeforeCtx {
            full_hand,
            scoring: &self.scoring,
            hand_type: self.hand_type,
            held,
            poker_hands: &self.poker_hands,
        };
        hooks.before_hand(&mut bctx, &mut self.ctx.hands, &mut self.ctx.dollars, rng);
        let BeforeCtx { full_hand, held, .. } = bctx;
        self.play = full_hand;
        self.held = held;
        let row = *self.ctx.hands.get(self.hand_type);
        self.mult = row.mult;
        self.chips = row.chips;
        if let Some(b) = self.ctx.blind {
            let mut blind = b;
            let (m, c, _modded) = blind.modify_hand(row.mult, row.chips);
            self.mult = m;
            self.chips = c;
            self.ctx.blind = Some(blind);
        }
    }

    fn triggered(&self) -> (r: bool)
        ensures
            r == is_triggered(self.ctx.blind),
    {
        match self.ctx.blind {
            Some(b) => b.triggered,
            None => false,
        }
    }

    fn total<H: JokerHooks>(&mut self, rng: &mut RngState, hooks: &mut H)
        requires
            old(self).valid(),
        ensures
            final(self).state(*final(hooks), final(rng)@) == totalled::<H>(
                old(self).state(*old(hooks), old(rng)@),
                old(self).base(),
            ),
            final(self).same_hand(*old(self)),
    {
        self.score_cards(rng, hooks);
        self.hold_cards(rng, hooks);
        let triggered = self.triggered();
        let hctx = HandCtx {
            full_hand: &self.play,
            scoring: &self.scoring,
            hand_type: self.hand_type,
            held: &self.held,
            poker_hands: &self.poker_hands,
        };
        let mut chips = self.chips;
        let mut mult = self.mult;
        let mut dollars: i64 = self.ctx.dollars;
        hooks.joker_main(
            &hctx,
            &self.ctx.hands,
            &mut chips,
            &mut mult,
            &mut dollars,
            triggered,
            rng,
        );
        self.chips = chips;
        self.mult = mult;
        self.ctx.dollars = dollars;
    }

    fn refuse<H: JokerHooks>(&mut self, hooks: &mut H)
        requires
            old(self).valid(),
        ensures
            forall|s: Streams| #[trigger]
                final(self).state(*final(hooks), s) == refused::<H>(
                    old(self).state(*old(hooks), s),
                    old(self).base(),
                ),
            final(self).same_hand(*old(self)),
    {
        let triggered = self.triggered();
        let hctx = HandCtx {
            full_hand: &self.play,
            scoring: &self.scoring,
            hand_type: self.hand_type,
            held: &self.held,
            poker_hands: &self.poker_hands,
        };
        let mut dollars: i64 = self.ctx.dollars;
        hooks.on_debuffed_hand(&hctx, triggered, &mut dollars);
        self.ctx.dollars = dollars;
    }
}

/// What a hand scores: chips times multiplier, rounded down.
pub open spec fn final_score(chips: Double, mult: Double) -> Double {
    chips.times(mult).floored()
}

/// Score a played hand. Hooks may change the played cards, and put cards into
/// the hand.
pub fn evaluate_play<H: JokerHooks>(
    ctx: &mut ScoreContext,
    play: &mut Vec<Card>,
    held: &mut Vec<Card>,
    rng: &mut RngState,
    hooks: &mut H,
) -> (r: PlayResult)
    ensures
        ({
            let p = played::<H>(*old(ctx), old(play)@, old(held)@, old(hooks).model(), old(rng)@);
            &&& final(hooks).model() == p.end.hooks
            &&& *final(ctx) == p.end.ctx
            &&& final(play)@ == p.end.play
            &&& final(held)@ == p.end.held
            &&& final(rng)@ == p.end.s
            &&& r.hand_type == p.hand_type
            &&& r.scoring@ == p.scoring
            &&& r.chips == p.end.chips
            &&& r.mult == p.end.mult
            &&& r.score == final_score(p.end.chips, p.end.mult)
            &&& r.debuffed_hand == p.debuffed
            &&& r.destroyed@ == p.destroyed
            &&& r.dollars_delta == p.end.ctx.dollars.wrapping_sub(old(ctx).dollars)
        }),
        final(play)@.len() == old(play)@.len(),
        handeval::places_below(r.destroyed@, old(play)@.len()),
{
    let dollars_before: i64 = ctx.dollars;
    let ghost m0 = hooks.model();
    let ghost mods = ctx.mods;
    let count: usize = play.len();
    let (hand_type, group, poker_hands) = handeval::get_poker_hand_info(play, &ctx.mods);
    let mut context = *ctx;
    context.hands.count_play(hand_type);
    let scoring = places_that_score(play, group, hooks.splash());
    let ghost base = hand_shown(play@, mods, H::all_cards_score(m0));
    proof {
        law_scoring_cards_are_played(play@, mods, H::all_cards_score(m0));
        assert forall|ht: HandType| #[trigger] holding(poker_hands)(ht) == hands_in(play@, mods)(
            ht,
        ) by {
            assert(poker_hands.groups(ht) == handeval::hand_groups(play@, mods, ht));
        }
        assert(holding(poker_hands) =~= hands_in(play@, mods));
    }
    let mut debuffed_hand = false;
    if let Some(b) = context.blind {
        let mut blind = b;
        debuffed_hand = blind.debuff_hand(
            count,
            hand_type,
            &mut context.hands,
            &mut context.dollars,
            context.most_played,
        );
        context.blind = Some(blind);
    }
    let mut scorer = Scorer {
        ctx: context,
        play: Vec::new(),
        held: Vec::new(),
        scoring,
        hand_type,
        poker_hands,
        chips: Double::from_i64(0),
        mult: Double::from_i64(0),
    };
    std::mem::swap(&mut scorer.play, play);
    std::mem::swap(&mut scorer.held, held);
    assert(scorer.base() == base);
    let ghost st = scorer.state(*hooks, rng@);
    let mut destroyed: Vec<usize> = Vec::new();
    if !debuffed_hand {
        scorer.open(rng, hooks);
        scorer.total(rng, hooks);
        destroyed = scorer.destroy_cards(rng, hooks);
        if destroyed.len() > 0 {
            let cards = scorer.cards_at(&destroyed);
            hooks.on_cards_destroyed(&cards);
        }
    } else {
        scorer.refuse(hooks);
        assert(scorer.state(*hooks, rng@) == refused::<H>(st, base));
        assert(destroyed@ =~= Seq::<usize>::empty());
    }
    let score = scorer.chips.mul(scorer.mult).floor();
    let hctx = HandCtx {
        full_hand: &scorer.play,
        scoring: &scorer.scoring,
        hand_type: scorer.hand_type,
        held: &scorer.held,
        poker_hands: &scorer.poker_hands,
    };
    hooks.after_hand(&hctx, rng);
    std::mem::swap(&mut scorer.play, play);
    std::mem::swap(&mut scorer.held, held);
    let Scorer { ctx: context, scoring, chips, mult, .. } = scorer;
    *ctx = context;
    PlayResult {
        hand_type,
        scoring,
        chips,
        mult,
        score,
        debuffed_hand,
        destroyed,
        dollars_delta: ctx.dollars.wrapping_sub(dollars_before),
    }
}

// ---- the end of a round --------------------------------------------------

/// Held cards at the end of a round: the state of the hooks, the streams, the
/// dollars, and how many planets were won.
pub struct RoundCards<M> {
    pub hooks: M,
    pub s: Streams,
    pub dollars: i64,
    pub planets: nat,
}

/// The dollars after the first `n` effects of jokers.
pub open spec fn with_h_dollars(dollars: i64, effs: Seq<CardEffect>, n: nat) -> i64
    decreases n,
{
    if n == 0 {
        dollars
    } else {
        with_h_dollars(dollars, effs, (n - 1) as nat).wrapping_add(effs[n - 1].h_dollars)
    }
}

/// Whether a card pays at the end of a round.
pub open spec fn pays_gold(card: Card) -> bool {
    !card.debuff && card.enhancement == Enhancement::Gold
}

/// Whether a card wins a planet, given how many more find room.
pub open spec fn wins_planet(card: Card, planets: nat, room: nat) -> bool {
    !card.debuff && card.seal == Seal::Blue && planets < room
}

/// A held card is looked at once.
pub open spec fn round_look<H: JokerHooks>(st: RoundCards<H::M>, card: Card, room: nat) -> RoundCards<
    H::M,
> {
    let (effs, hooks, s) = H::on_round_card(st.hooks, card, st.s);
    RoundCards {
        hooks,
        s,
        dollars: with_h_dollars(
            if pays_gold(card) {
                st.dollars.wrapping_add(3)
            } else {
                st.dollars
            },
            effs,
            effs.len(),
        ),
        planets: if wins_planet(card, st.planets, room) {
            st.planets + 1
        } else {
            st.planets
        },
    }
}

/// A held card is looked at `n` times.
pub open spec fn round_looks<H: JokerHooks>(
    st: RoundCards<H::M>,
    card: Card,
    room: nat,
    n: nat,
) -> RoundCards<H::M>
    decreases n,
{
    if n == 0 {
        st
    } else {
        round_look::<H>(round_looks::<H>(st, card, room, (n - 1) as nat), card, room)
    }
}

/// A held card has its effects at the end of a round: once, and if there was
/// any, once more for a red seal and as often more as the hooks say.
pub open spec fn round_card<H: JokerHooks>(st: RoundCards<H::M>, card: Card, room: nat) -> RoundCards<
    H::M,
> {
    let has = pays_gold(card) || wins_planet(card, st.planets, room) || H::on_round_card(
        st.hooks,
        card,
        st.s,
    ).0.len() > 0;
    let once = round_look::<H>(st, card, room);
    let (more, hooks) = H::round_repetitions(once.hooks, card, has);
    let red = if card.seal == Seal::Red && !card.debuff && has {
        1nat
    } else {
        0
    };
    round_looks::<H>(RoundCards { hooks, ..once }, card, room, red + more as nat)
}

/// The first `n` held cards have their effects, in order.
pub open spec fn round_cards<H: JokerHooks>(
    st: RoundCards<H::M>,
    hand: Seq<Card>,
    room: nat,
    n: nat,
) -> RoundCards<H::M>
    decreases n,
{
    if n == 0 {
        st
    } else {
        round_card::<H>(round_cards::<H>(st, hand, room, (n - 1) as nat), hand[n - 1], room)
    }
}

fn add_h_dollars(dollars: &mut i64, effs: &Vec<CardEffect>)
    ensures
        *final(dollars) == with_h_dollars(*old(dollars), effs@, effs@.len()),
{
    let mut k: usize = 0;
    while k < effs.len()
        invariant
            k <= effs.len(),
            *dollars == with_h_dollars(*old(dollars), effs@, k as nat),
        decreases effs.len() - k,
    {
        *dollars = dollars.wrapping_add(effs[k].h_dollars);
        k = k + 1;
    }
}

fn look_at_round_end<H: JokerHooks>(
    card: &Card,
    room: usize,
    dollars: &mut i64,
    planets: &mut usize,
    rng: &mut RngState,
    hooks: &mut H,
) -> (r: bool)
    requires
        *old(planets) <= room,
    ensures
        (RoundCards {
            hooks: final(hooks).model(),
            s: final(rng)@,
            dollars: *final(dollars),
            planets: *final(planets) as nat,
        }) == round_look::<H>(
            RoundCards {
                hooks: old(hooks).model(),
                s: old(rng)@,
                dollars: *old(dollars),
                planets: *old(planets) as nat,
            },
            *card,
            room as nat,
        ),
        *final(planets) <= room,
        r == (pays_gold(*card) || wins_planet(*card, *old(planets) as nat, room as nat)
            || H::on_round_card(old(hooks).model(), *card, old(rng)@).0.len() > 0),
{
    let gold = !card.debuff && card.enhancement == Enhancement::Gold;
    let blue = !card.debuff && card.seal == Seal::Blue && *planets < room;
    if gold {
        *dollars = dollars.wrapping_add(3);
    }
    if blue {
        *planets = *planets + 1;
    }
    let effs = hooks.end_of_round_card(card, rng);
    add_h_dollars(dollars, &effs);
    gold || blue || effs.len() > 0
}

/// Let the held cards have their effects at the end of a round; how many
/// planets were won, at most `room`.
pub fn evaluate_held_at_round_end<H: JokerHooks>(
    hand: &Vec<Card>,
    room: usize,
    dollars: &mut i64,
    rng: &mut RngState,
    hooks: &mut H,
) -> (r: usize)
    ensures
        (RoundCards {
            hooks: final(hooks).model(),
            s: final(rng)@,
            dollars: *final(dollars),
            planets: r as nat,
        }) == round_cards::<H>(
            RoundCards {
                hooks: old(hooks).model(),
                s: old(rng)@,
                dollars: *old(dollars),
                planets: 0,
            },
            hand@,
            room as nat,
            hand@.len(),
        ),
{
    let ghost start = RoundCards::<H::M> {
        hooks: hooks.model(),
        s: rng@,
        dollars: *dollars,
        planets: 0,
    };
    let mut planets: usize = 0;
    let mut i: usize = 0;
    while i < hand.len()
        invariant
            i <= hand.len(),
            planets <= room,
            (RoundCards {
                hooks: hooks.model(),
                s: rng@,
                dollars: *dollars,
                planets: planets as nat,
            }) == round_cards::<H>(start, hand@, room as nat, i as nat),
        decreases hand.len() - i,
    {
        let card = hand[i];
        let has = look_at_round_end(&card, room, dollars, &mut planets, rng, hooks);
        let more: u32 = hooks.end_of_round_card_repetitions(&card, has);
        let mut reps: u64 = more as u64;
        if card.seal == Seal::Red && !card.debuff && has {
            reps = reps + 1;
        }
        let ghost once = RoundCards::<H::M> {
            hooks: hooks.model(),
            s: rng@,
            dollars: *dollars,
            planets: planets as nat,
        };
        let mut k: u64 = 0;
        while k < reps
            invariant
                k <= reps,
                planets <= room,
                (RoundCards {
                    hooks: hooks.model(),
                    s: rng@,
                    dollars: *dollars,
                    planets: planets as nat,
                }) == round_looks::<H>(once, card, room as nat, k as nat),
            decreases reps - k,
        {
            let _has = look_at_round_end(&card, room, dollars, &mut planets, rng, hooks);
            k = k + 1;
        }
        i = i + 1;
    }
    planets
}

/// A hand that the blind refuses scores nothing and breaks nothing.
pub proof fn law_refused_hands_score_nothing<H: JokerHooks>(
    ctx: ScoreContext,
    play: Seq<Card>,
    held: Seq<Card>,
    hooks: H::M,
    s: Streams,
)
    ensures
        played::<H>(ctx, play, held, hooks, s).debuffed ==> {
            let p = played::<H>(ctx, play, held, hooks, s);
            &&& p.end.chips == Double::of(0)
            &&& p.end.mult == Double::of(0)
            &&& final_score(p.end.chips, p.end.mult) == Double::of(0)
            &&& p.destroyed.len() == 0
            &&& p.end.play == play
            &&& p.end.held == held
        },
{
    double::lemma_zero();
}

/// Whole chips times a whole multiplier are the score, as long as a double holds
/// it.
pub proof fn law_whole_scores(chips: nat, mult: nat)
    requires
        chips < 0x20_0000_0000_0000,
        mult < 0x20_0000_0000_0000,
        chips * mult < 0x20_0000_0000_0000,
    ensures
        final_score(Double::of(chips as int), Double::of(mult as int)) == Double::of(
            (chips * mult) as int,
        ),
{
    let x = Double::of(chips as int);
    let y = Double::of(mult as int);
    exact::lemma_whole(chips);
    exact::lemma_whole(mult);
    exact::lemma_product(x, chips, 0, y, mult);
    exact::lemma_floor_of_whole(x.times(y), chips * mult);
}

/// Levels that a hand went up can be taken back.
pub proof fn law_levels_can_be_taken_back(hands: HandsTable, ht: HandType, amount: i64)
    requires
        hands.row(ht) == hands.row(ht).at_level(ht, hands.row(ht).level),
        0 <= hands.row(ht).level + amount <= u32::MAX,
    ensures
        hands.leveled_up(ht, amount).leveled_up(ht, (-amount) as i64) == hands,
{
    reveal(PerHand::at);
    reveal(PerHand::with);
    let row = hands.row(ht);
    let up = row.at_level(ht, row.level_after(amount));
    assert(up.level == row.level + amount);
    assert(up.level_after((-amount) as i64) == row.level);
    assert(up.at_level(ht, row.level) == row);
    assert(hands.leveled_up(ht, amount).row(ht) == up);
}

/// The chips and the multiplier of a hand go by its level: at the start of a
/// run, and still when some hand changed its level or was played.
pub proof fn law_rows_go_by_their_level(hands: HandsTable, ht: HandType, other: HandType, n: i64)
    ensures
        HandsTable::first().row(ht) == HandsTable::first().row(ht).at_level(ht, 1),
        hands.row(ht) == hands.row(ht).at_level(ht, hands.row(ht).level) ==> {
            let up = hands.leveled_up(other, n).row(ht);
            let played = hands.after_play(other).row(ht);
            &&& up == up.at_level(ht, up.level)
            &&& played == played.at_level(ht, played.level)
        },
{
    reveal(PerHand::at);
    reveal(PerHand::with);
    let v = ht.values();
    double::lemma_no_steps(v.base_mult as nat, v.level_mult as nat, 1);
    double::lemma_no_steps(v.base_chips as nat, v.level_chips as nat, 0);
}

} // verus!
