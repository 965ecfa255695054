//! How a round goes: what is scored adds up until the blind is beaten.
use crate::blinds;
use crate::blinds::ActiveBlind;
use crate::cards::{Card, Seal};
use crate::double::Double;
use crate::exact;
use crate::jokers::engine::Engine;
use crate::jokers::EngineHooks;
use crate::key_marks::lemma_blind_marks;
use crate::making;
use crate::numbering::lemma_chosen;
use crate::play;
use crate::round;
use crate::round::disabling;
use crate::run::{BlindStage, RunModel, State};
use crate::scoring;
use crate::scoring::JokerHooks;
use crate::sound::lemma_hand_played;
use crate::windows::lemma_played;
use vstd::prelude::*;

verus! {

/// What a hand scores is added to what was scored in the round before; and it
/// is its chips times its mult. In whole numbers, as long as a double holds
/// them.
pub proof fn law_scores_add_up(m: RunModel, indices: Seq<usize>)
    requires
        m.play(indices).refusal is None,
    ensures
        m.chosen(indices) is Ok,
        ({
            let p = m.hand_result(m.chosen(indices)->Ok_0);
            let after = m.play(indices).run;
            &&& after.last_play == Some(p)
            &&& forall|a: nat, b: nat|
                #![trigger Double::of(a as int), Double::of(b as int)]
                m.round.chips == Double::of(a as int) && p.score == Double::of(b as int) && a + b
                    < 0x20_0000_0000_0000 ==> after.round.chips == Double::of((a + b) as int)
            &&& forall|c: nat, t: nat|
                #![trigger Double::of(c as int), Double::of(t as int)]
                p.chips == Double::of(c as int) && p.mult == Double::of(t as int) && c
                    < 0x20_0000_0000_0000 && t < 0x20_0000_0000_0000 && c * t
                    < 0x20_0000_0000_0000 ==> p.score == Double::of((c * t) as int)
        }),
{
    reveal(RunModel::play);
    let sel = m.chosen(indices)->Ok_0;
    lemma_chosen(m, indices, sel);
    lemma_hand_played(m, sel);
    let p = m.hand_result(sel);
    let after = m.play(indices).run;
    assert forall|a: nat, b: nat|
        #![trigger Double::of(a as int), Double::of(b as int)]
        m.round.chips == Double::of(a as int) && p.score == Double::of(b as int) && a + b
            < 0x20_0000_0000_0000 implies after.round.chips == Double::of((a + b) as int) by {
        exact::lemma_whole_sum(a, b);
    }
    assert forall|c: nat, t: nat|
        #![trigger Double::of(c as int), Double::of(t as int)]
        p.chips == Double::of(c as int) && p.mult == Double::of(t as int) && c
            < 0x20_0000_0000_0000 && t < 0x20_0000_0000_0000 && c * t
            < 0x20_0000_0000_0000 implies p.score == Double::of((c * t) as int) by {
        scoring::law_whole_scores(c, t);
    }
}

// ---- the end of a round --------------------------------------------------

/// The least of two numbers.
pub open spec fn least(a: int, b: int) -> int {
    if a <= b {
        a
    } else {
        b
    }
}

/// One dollar of interest, or as many as interest pays, for every five dollars up
/// to the cap.
pub proof fn law_interest_is_paid_on_every_five_dollars(m: RunModel)
    requires
        m.purse.dollars < 0x20_0000_0000_0000,
        0 <= m.purse.interest_cap,
        0 <= m.purse.interest_amount <= 100,
        m.purse.interest_cap <= 1_000_000,
    ensures
        m.purse.dollars >= 0 ==> m.interest() == m.purse.interest_amount * least(
            m.purse.dollars as int / 5,
            m.purse.interest_cap as int / 5,
        ),
        m.purse.dollars < 5 ==> m.interest() == 0,
{
    reveal(RunModel::interest);
    let a = m.purse.interest_amount as int;
    if m.purse.dollars >= 0 {
        exact::lemma_whole_quotient(m.purse.dollars as nat, 5);
        let t = least(m.purse.dollars as int / 5, m.purse.interest_cap as int / 5);
        assert(0 <= a * t <= 100 * 200_000) by (nonlinear_arith)
            requires
                0 <= a <= 100,
                0 <= t <= 200_000,
        ;
        assert(a * 0 == 0);
    }
}

proof fn lemma_no_jokers(e: Engine)
    requires
        e.jokers.len() == 0,
    ensures
        EngineHooks::at_first_hand(e) == e,
        forall|h: scoring::HandsTable, lost: bool, s: crate::rng::Streams|
            #[trigger] EngineHooks::at_round_end(e, h, lost, s) == (false, e, s),
        EngineHooks::payouts(e) == (0i64, e),
{
}

/// Whether a blind is the Small or the Big Blind.
pub open spec fn plain_blind(b: ActiveBlind) -> bool {
    b.proto == blinds::small_blind() || b.proto == blinds::big_blind()
}

proof fn lemma_plain_names(b: ActiveBlind)
    requires
        plain_blind(b),
    ensures
        !b.named("The Hook"@),
        !b.named("The Tooth"@),
        !b.named("The Fish"@),
        !b.named("Crimson Heart"@),
        !b.named("The Manacle"@),
        !b.named("Cerulean Bell"@),
        !b.proto.is_boss,
        b.proto.dollars == if b.proto == blinds::small_blind() {
            3i64
        } else {
            4
        },
{
    reveal_strlit("Small Blind");
    reveal_strlit("Big Blind");
    reveal_strlit("The Hook");
    reveal_strlit("The Tooth");
    reveal_strlit("The Fish");
    reveal_strlit("Crimson Heart");
    reveal_strlit("The Manacle");
    reveal_strlit("Cerulean Bell");
    assert("Small Blind"@[0] == 'S' && "Big Blind"@[0] == 'B');
    assert("The Hook"@[0] == 'T' && "The Tooth"@[0] == 'T' && "The Fish"@[0] == 'T');
    assert("Crimson Heart"@[0] == 'C' && "The Manacle"@[0] == 'T' && "Cerulean Bell"@[0] == 'C');
}

proof fn lemma_settles(m: RunModel, e: Engine)
    requires
        e.out.events.len() == 0,
    ensures
        m.rejoined(e, disabling(true)).state == m.state,
        m.rejoined(e, disabling(true)).round == m.round,
        m.rejoined(e, disabling(true)).purse == m.purse,
        m.rejoined(e, disabling(true)).track == m.track,
        m.rejoined(e, disabling(true)).jokers == e.jokers,
{
    reveal(RunModel::settled);
    reveal(RunModel::events_done);
}

proof fn lemma_drawn_on(m: RunModel, n: nat)
    ensures
        m.drawn(n).state == m.state,
        m.drawn(n).jokers == m.jokers,
        m.drawn(n).round == m.round,
    decreases n,
{
    if n > 0 {
        lemma_drawn_on(m, (n - 1) as nat);
    }
}

proof fn lemma_hand_drawn_alone(m: RunModel, b: ActiveBlind)
    requires
        m.jokers.len() == 0,
        m.round.active_blind == Some(b),
        plain_blind(b),
    ensures
        m.hand_drawn().state == m.state,
{
    reveal(RunModel::hand_drawn);
    lemma_plain_names(b);
    let d = m.drawn(m.draw_count());
    lemma_drawn_on(m, m.draw_count());
    let h = RunModel { hand: crate::making::in_order(d.hand), ..d };
    let e = h.engine(seq![]);
    lemma_no_jokers(e);
    lemma_settles(h, e);
}

proof fn lemma_won_alone(m: RunModel, b: ActiveBlind)
    requires
        m.jokers.len() == 0,
        m.round.active_blind == Some(b),
        plain_blind(b),
        !m.track.last_blind_boss,
    ensures
        m.won_round(disabling(true)).state == State::RoundEval,
        m.won_round(disabling(true)).purse.pending_cashout == (RunModel {
            purse: m.won_round(disabling(true)).purse,
            ..m
        }).payout(0),
{
    reveal(RunModel::won_round);
    reveal(RunModel::counted_out);
    reveal(RunModel::gathered);
    reveal(RunModel::expired);
    reveal(RunModel::reroll_priced);
    reveal(RunModel::idol_reset);
    reveal(RunModel::mail_reset);
    reveal(RunModel::castle_reset);
    reveal(RunModel::ancient_reset);
    reveal(RunModel::jokers_cleared);
    reveal(RunModel::held_done);
    reveal(RunModel::payout);
    reveal(RunModel::tag_payout);
    reveal(RunModel::interest);
    lemma_plain_names(b);
    let r = m.recorded();
    let h = r.held_done();
    crate::sound::lemma_round_cards(
        scoring::RoundCards {
            hooks: r.engine(seq![]),
            s: r.s,
            dollars: r.purse.dollars,
            planets: 0,
        },
        r.hand,
        r.consumable_room(),
        r.hand.len(),
    );
    lemma_no_jokers(h.hooks);
    let w = RunModel {
        s: h.s,
        purse: crate::run::Purse { dollars: h.dollars, ..r.purse },
        ..r
    };
    lemma_settles(w, h.hooks);
    let k = w.rejoined(h.hooks, disabling(true));
    lemma_planets_on(k, h.planets);
    let c = k.with_planets(h.planets);
    let out = r.counted_out(disabling(true));
    assert(out.purse == crate::run::Purse { pending_cashout: c.payout(0), ..c.purse });
    assert(out.track == c.track && out.round == c.round);
    let done = m.won_round(disabling(true));
    assert(done.purse == out.purse);
    let x = RunModel { purse: done.purse, ..m };
    assert(c.interest() == x.interest());
    assert(c.tag_payout() == 0 && x.tag_payout() == 0);
    assert(c.blind_met() == x.blind_met());
    assert(c.foe() == x.foe());
}

proof fn lemma_planets_on(m: RunModel, n: nat)
    ensures
        m.with_planets(n).round == m.round,
        m.with_planets(n).purse == m.purse,
        m.with_planets(n).track == m.track,
        m.with_planets(n).jokers == m.jokers,
        m.with_planets(n).tags == m.tags,
    decreases n,
{
    if m.record.last_hand_played is Some && n > 0 {
        lemma_planets_on(m, (n - 1) as nat);
    }
}

/// A hand against the Small or the Big Blind, without jokers: the round is won as
/// soon as what was scored reaches what the blind asks for, and then pays 3 or 4
/// dollars, one for each hand that is left, and interest. It is lost if no hand is
/// left, and else goes on.
#[verifier::rlimit(40)]
pub proof fn law_rounds_end_when_the_blind_is_beaten(
    m: RunModel,
    indices: Seq<usize>,
    b: ActiveBlind,
    before: nat,
    scored: nat,
    asked: nat,
)
    requires
        m.play(indices).refusal is None,
        m.jokers.len() == 0,
        m.round.active_blind == Some(b),
        plain_blind(b),
        !m.track.last_blind_boss,
        before + scored < 0x20_0000_0000_0000,
        asked < 0x20_0000_0000_0000,
        b.chips == Double::of(asked as int),
        m.round.chips == Double::of(before as int),
        m.hand_result(m.chosen(indices)->Ok_0).score == Double::of(scored as int),
        0 < m.round.hands_left <= 1_000_000,
    ensures
        ({
            let after = m.play(indices).run;
            &&& before + scored >= asked ==> after.state == State::RoundEval
            &&& before + scored < asked && m.round.hands_left > 1 ==> after.state
                == State::SelectingHand
            &&& before + scored < asked && m.round.hands_left == 1 ==> after.state
                == State::GameOver
            &&& before + scored >= asked ==> after.purse.pending_cashout == (if b.proto
                == blinds::small_blind() {
                3i64
            } else {
                4
            }).wrapping_add((m.round.hands_left - 1) as i64).wrapping_add(after.interest())
        }),
{
    reveal(RunModel::play);
    reveal(RunModel::hand_played);
    reveal(RunModel::laid);
    reveal(RunModel::pressed);
    reveal(RunModel::scored);
    reveal(RunModel::ended);
    reveal(RunModel::interest);
    let sel = m.chosen(indices)->Ok_0;
    lemma_chosen(m, indices, sel);
    lemma_plain_names(b);
    let l = m.laid(sel);
    let cards = play::laid_down(play::taken(m.hand, sel));
    let p = l.scored(cards);
    lemma_played(l.score_context(), cards, l.hand, l.engine(cards), l.s);
    assert(p.end.hooks.out.events.len() == 0);
    let b2 = p.end.ctx.blind->0;
    let w = RunModel {
        s: p.end.s,
        hand: p.end.held,
        record: crate::run::Record { hands: p.end.ctx.hands, ..l.record },
        purse: crate::run::Purse { dollars: p.end.ctx.dollars, ..l.purse },
        round: crate::run::Round { active_blind: p.end.ctx.blind, ..l.round },
        ..l
    };
    lemma_settles(w, p.end.hooks);
    let a = l.after_score(p);
    let c = a.cleared(p, l.purse.dollars);
    exact::lemma_whole_sum(before, scored);
    assert(c.round.chips == Double::of((before + scored) as int));
    exact::lemma_whole_rest(before + scored, asked);
    assert(c.round.active_blind == Some(b2) && b2.chips == b.chips && plain_blind(b2));
    let e = c.engine(seq![]);
    lemma_no_jokers(e);
    lemma_settles(c, e);
    let k = c.rejoined(e, disabling(true));
    lemma_won_alone(k, b2);
    lemma_hand_drawn_alone(c, b2);
    assert(k.round == c.round && k.state == c.state);
    reveal(RunModel::payout);
    reveal(RunModel::tag_payout);
    lemma_plain_names(b2);
    let x = RunModel { purse: k.won_round(disabling(true)).purse, ..k };
    assert(x.blind_met() == (before + scored >= asked));
    assert(x.interest() == k.won_round(disabling(true)).interest());
}

// ---- hands and discards --------------------------------------------------

/// What a run without jokers keeps while a hand is drawn.
proof fn lemma_hand_filled(m: RunModel, b: ActiveBlind)
    requires
        m.jokers.len() == 0,
        m.round.active_blind == Some(b),
        plain_blind(b),
        m.hand.len() <= m.round.hand_size < 1000,
    ensures
        m.hand_drawn().hand.len() == least(m.round.hand_size as int, (m.hand.len() + m.deck.len()) as int),
        m.hand_drawn().deck.len() + m.hand_drawn().hand.len() == m.deck.len() + m.hand.len(),
        m.hand_drawn().discard_pile == m.discard_pile,
        m.hand_drawn().destroyed_cards == m.destroyed_cards,
        m.hand_drawn().round.discards_left == m.round.discards_left,
        m.hand_drawn().round.discards_used == m.round.discards_used,
        m.hand_drawn().round.hands_left == m.round.hands_left,
        m.hand_drawn().jokers == m.jokers,
        m.hand_drawn().purse == m.purse,
        m.hand_drawn().round.chips == m.round.chips,
        m.hand_drawn().round.active_blind matches Some(x) && x.chips == b.chips && x.proto
            == b.proto && x.disabled == b.disabled,
{
    reveal(RunModel::hand_drawn);
    reveal(RunModel::settled);
    reveal(RunModel::events_done);
    lemma_plain_names(b);
    lemma_blind_marks();
    let n = m.draw_count();
    let d = m.drawn(n);
    lemma_drawn_on(m, n);
    round::law_cards_are_drawn_from_the_end(m, n, 0);
    lemma_drawn_rest(m, n);
    let h = RunModel { hand: making::in_order(d.hand), ..d };
    making::law_ordering_a_hand_keeps_its_cards(d.hand);
    crate::order::lemma_sorted_permutes(d.hand, making::hand_leq());
    d.hand.to_multiset_ensures();
    h.hand.to_multiset_ensures();
    assert(h.hand.len() == d.hand.len());
    let e = h.engine(seq![]);
    lemma_no_jokers(e);
    lemma_settles(h, e);
}

proof fn lemma_drawn_rest(m: RunModel, n: nat)
    ensures
        m.drawn(n).discard_pile == m.discard_pile,
        m.drawn(n).destroyed_cards == m.destroyed_cards,
        m.drawn(n).purse == m.purse,
    decreases n,
{
    if n > 0 {
        lemma_drawn_rest(m, (n - 1) as nat);
    }
}

/// Cards with their face up.
pub open spec fn face_up(cards: Seq<Card>) -> Seq<Card> {
    cards.map_values(|c: Card| Card { face_down: false, ..c })
}

proof fn lemma_tossed_alone(t: play::Tossing, cards: Seq<Card>, room: nat, n: nat)
    requires
        t.e.jokers.len() == 0,
        n <= cards.len(),
        forall|i: int| 0 <= i < cards.len() ==> (#[trigger] cards[i]).seal != Seal::Purple,
    ensures
        play::tossed(t, cards, room, n) == (play::Tossing {
            pile: t.pile + face_up(cards.take(n as int)),
            ..t
        }),
    decreases n,
{
    if n == 0 {
        assert(t.pile + face_up(cards.take(0)) =~= t.pile);
    } else {
        lemma_tossed_alone(t, cards, room, (n - 1) as nat);
        assert(cards[n - 1].seal != Seal::Purple);
        let laid = Card { face_down: false, ..cards[n - 1] };
        assert((t.pile + face_up(cards.take(n - 1))).push(laid) =~= t.pile + face_up(
            cards.take(n as int),
        ));
    }
}

/// Discarding without jokers, against the Small or the Big Blind: the chosen cards go
/// onto the pile with their face up, one discard is used, and the hand is filled up
/// again from the deck.
#[verifier::rlimit(40)]
pub proof fn law_discarding_draws_new_cards(m: RunModel, indices: Seq<usize>, b: ActiveBlind)
    requires
        m.discard(indices).refusal is None,
        m.jokers.len() == 0,
        m.round.active_blind == Some(b),
        plain_blind(b),
        m.hand.len() <= m.round.hand_size < 1000,
        0 < m.round.discards_left < 1000,
        0 <= m.round.discards_used < 1000,
        forall|i: int| 0 <= i < m.hand.len() ==> (#[trigger] m.hand[i]).seal != Seal::Purple,
    ensures
        m.chosen(indices) is Ok,
        ({
            let run = m.discard(indices).run;
            let cards = play::taken(m.hand, m.chosen(indices)->Ok_0);
            let rest = play::left(m.hand, m.chosen(indices)->Ok_0, m.hand.len());
            &&& run.round.discards_left == m.round.discards_left - 1
            &&& run.round.discards_used == m.round.discards_used + 1
            &&& run.round.hands_left == m.round.hands_left
            &&& run.discard_pile == m.discard_pile + face_up(cards)
            &&& run.destroyed_cards == m.destroyed_cards
            &&& run.hand.len() == least(m.round.hand_size as int, (rest.len() + m.deck.len()) as int)
        }),
{
    reveal(RunModel::discard);
    reveal(RunModel::discarded);
    reveal(RunModel::settled);
    reveal(RunModel::events_done);
    let sel = m.chosen(indices)->Ok_0;
    lemma_chosen(m, indices, sel);
    let cards = play::taken(m.hand, sel);
    let rest = play::left(m.hand, sel, m.hand.len());
    let m0 = RunModel {
        round: crate::run::Round { forced_card: None, ..m.round },
        hand: rest,
        ..m
    };
    let e = m0.engine(seq![]);
    assert forall|i: int| 0 <= i < cards.len() implies (#[trigger] cards[i]).seal
        != Seal::Purple by {
        assert(m.hand[sel[i] as int].seal != Seal::Purple);
    }
    let none: Seq<Card> = seq![];
    let t = play::Tossing {
        e,
        dollars: m0.purse.dollars,
        s: m0.s,
        tarots: 0,
        gone: none,
        pile: m0.discard_pile,
    };
    assert(EngineHooks::at_pre_discard(e, cards, false, m0.record.hands, m0.mods()).0 == e);
    lemma_tossed_alone(t, cards, m0.consumable_room(), cards.len());
    assert(cards.take(cards.len() as int) =~= cards);
    assert(m0.destroyed_cards + none =~= m0.destroyed_cards);
    let d = m0.discarded(cards, false);
    assert(d.discard_pile == m.discard_pile + face_up(cards));
    let x = RunModel {
        round: crate::run::Round {
            discards_left: d.round.discards_left.wrapping_sub(1),
            discards_used: d.round.discards_used.wrapping_add(1),
            ..d.round
        },
        ..d
    };
    lemma_left_fewer(m.hand, sel, m.hand.len());
    lemma_hand_filled(x, b);
}

proof fn lemma_left_fewer(hand: Seq<Card>, sel: Seq<usize>, n: nat)
    ensures
        play::left(hand, sel, n).len() <= n,
    decreases n,
{
    if n > 0 {
        lemma_left_fewer(hand, sel, (n - 1) as nat);
    }
}

// ---- from blind to blind -------------------------------------------------

/// The blinds of an ante come in turn: the Small, the Big, and then the boss.
pub proof fn law_blinds_come_in_turn(m: RunModel)
    ensures
        ({
            let next = m.moved_on().track.blind_on_deck;
            let small = m.track.small_defeated || m.track.small_skipped;
            let big = m.track.big_defeated || m.track.big_skipped;
            &&& !small ==> next == BlindStage::Small
            &&& small && !big ==> next == BlindStage::Big
            &&& small && big ==> next == BlindStage::Boss
        }),
        m.track.blind_on_deck == BlindStage::Small ==> m.next_blind() == blinds::small_blind(),
        m.track.blind_on_deck == BlindStage::Big ==> m.next_blind() == blinds::big_blind(),
        m.track.blind_on_deck == BlindStage::Boss && blinds::boss_from(
            m.track.boss_choice@,
            0,
        ) is Some ==> m.next_blind() == blinds::boss_from(m.track.boss_choice@, 0)->0,
{
}

/// A beaten Small Blind counts as beaten, and so does a Big Blind; a boss moves the
/// ante on by one, no other blind does; and the boss of ante 8 wins the run, no
/// other blind and no other ante does.
pub proof fn law_bosses_move_the_ante_on(m: RunModel, b: ActiveBlind)
    requires
        m.round.active_blind == Some(b),
        -1000 < m.track.ante < 1000,
    ensures
        b.proto == blinds::small_blind() ==> m.marked_defeated(Some(b)).track.small_defeated,
        b.proto == blinds::big_blind() ==> m.marked_defeated(Some(b)).track.big_defeated,
        m.gathered().track.ante == (if b.proto.is_boss {
            m.track.ante + 1
        } else {
            m.track.ante as int
        }),
        m.recorded().track.won == (m.track.won || (b.proto.is_boss && m.track.ante == 8)),
{
    reveal(RunModel::gathered);
    reveal(RunModel::voucher_drawn);
    reveal_strlit("bl_small");
    reveal_strlit("bl_big");
    assert("bl_small"@.len() == 8 && "bl_big"@.len() == 6);
}

/// A run starts with 4 dollars, 4 hands, 4 discards, a hand of 8 cards, 5 slots for
/// jokers and 2 for consumables, at the Small Blind of ante 1; rerolls cost 5
/// dollars.
pub proof fn law_how_runs_start(seed: Seq<char>)
    ensures
        ({
            let m = crate::course::opening(seed);
            &&& m.purse.dollars == 4 && m.purse.interest_cap == 25 && m.purse.interest_amount == 1
            &&& m.limits.hands == 4 && m.limits.discards == 4 && m.round.hand_size == 8
            &&& m.limits.joker_slots == 5 && m.limits.consumable_slots == 2
            &&& m.limits.shop_joker_max == 2 && m.reroll.cost == 5 && m.reroll.base_cost == 5
            &&& m.track.ante == 1 && m.track.blind_on_deck == BlindStage::Small
            &&& m.state == State::BlindSelect && !m.track.won
            &&& m.jokers.len() == 0 && m.consumables.len() == 0 && m.tags.len() == 0
        }),
{
}

/// A round starts with all hands, at least one, and all discards, and nothing
/// played.
pub proof fn law_rounds_start_afresh(m: RunModel, boss: bool)
    ensures
        ({
            let r = m.round_begun(boss).round;
            &&& r.hands_left == (if m.limits.hands < 1 {
                1
            } else {
                m.limits.hands
            })
            &&& r.discards_left == (if m.limits.discards < 0 {
                0
            } else {
                m.limits.discards
            })
            &&& r.hands_played == 0 && r.discards_used == 0
            &&& m.round_begun(boss).reroll.increase == 0
        }),
{
    reveal(RunModel::round_begun);
    reveal(RunModel::reroll_priced);
}

proof fn lemma_blind_set_plain(m: RunModel, b: ActiveBlind)
    requires
        plain_blind(b),
    ensures
        m.blind_set(b).round == (crate::run::Round { active_blind: Some(b), ..m.round }),
        m.blind_set(b).jokers == m.jokers,
        m.blind_set(b).tags == m.tags,
        m.blind_set(b).hand.len() == m.hand.len(),
        m.blind_set(b).deck.len() == m.deck.len(),
{
    reveal(RunModel::blind_set);
    reveal(RunModel::blind_taken);
    lemma_blind_marks();
}

/// A round against the Small or the Big Blind, without jokers and tags: it starts with
/// all hands and discards, a full hand from the shuffled deck, and a blind that asks for
/// what the amount says.
#[verifier::rlimit(40)]
pub proof fn law_selecting_a_blind_deals_a_hand(m: RunModel, amount: Double)
    requires
        m.blind_selected(amount).refusal is None,
        m.jokers.len() == 0,
        m.tags.len() == 0,
        m.hand.len() == 0,
        0 <= m.round.hand_size < 1000,
        m.track.blind_on_deck == BlindStage::Small || m.track.blind_on_deck == BlindStage::Big,
    ensures
        ({
            let run = m.blind_selected(amount).run;
            let proto = if m.track.blind_on_deck == BlindStage::Small {
                blinds::small_blind()
            } else {
                blinds::big_blind()
            };
            &&& run.state == State::SelectingHand
            &&& run.hand.len() == least(m.round.hand_size as int, m.deck.len() as int)
            &&& run.deck.len() + run.hand.len() == m.deck.len()
            &&& run.round.hands_left == (if m.limits.hands < 1 {
                1
            } else {
                m.limits.hands
            })
            &&& run.round.discards_left == (if m.limits.discards < 0 {
                0
            } else {
                m.limits.discards
            })
            &&& run.round.chips == m.round.chips
            &&& run.round.active_blind matches Some(b) && b.proto == proto && !b.disabled && b.chips
                == ActiveBlind::fresh(proto, amount).chips
        }),
{
    reveal(RunModel::blind_selected);
    reveal(RunModel::round_begun);
    reveal(RunModel::reroll_priced);
    reveal(RunModel::blind_seen);
    reveal(RunModel::tags_applied);
    let proto = m.next_blind();
    let b = ActiveBlind::fresh(proto, amount);
    let r = m.round_begun(proto.is_boss);
    lemma_blind_set_plain(r, b);
    let set = r.blind_set(b);
    let e = set.engine(seq![]);
    assert(EngineHooks::at_setting_blind(e, set.s) == (e, set.s));
    let seen = set.blind_seen();
    reveal(RunModel::settled);
    reveal(RunModel::events_done);
    assert(seen.round == set.round && seen.deck == set.deck && seen.hand == set.hand && seen.tags
        == set.tags && seen.jokers == set.jokers);
    let mixed = seen.deck_shuffled(seen.at_ante("nr"));
    crate::deck::law_shuffle_permutes(seen.deck, seen.s.drawn_seed(seen.at_ante("nr")));
    seen.deck.to_multiset_ensures();
    mixed.deck.to_multiset_ensures();
    assert(mixed.deck.len() == seen.deck.len());
    assert(mixed.tags_applied(crate::shop::TagContext::RoundStartBonus) == mixed);
    lemma_hand_filled(mixed, b);
}

/// Cashing out pays what the round earned and clears what was scored.
pub proof fn law_cashing_out_pays(m: RunModel)
    requires
        0 <= m.purse.dollars < 1_000_000_000,
        0 <= m.purse.pending_cashout < 1_000_000_000,
    ensures
        m.paid_out().purse.dollars == m.purse.dollars + m.purse.pending_cashout,
        m.paid_out().purse.pending_cashout == 0,
        m.paid_out().round.chips == Double::of(0),
        m.paid_out().round.active_blind is None,
{
}

/// Whether a tag waits for something other than the choice of a blind.
pub open spec fn waits(key: Seq<char>) -> bool {
    key == "tag_investment"@ || key == "tag_voucher"@ || key == "tag_coupon"@ || key
        == "tag_d_six"@ || key == "tag_juggle"@ || key == "tag_uncommon"@ || key == "tag_rare"@ || key
        == "tag_foil"@ || key == "tag_holo"@ || key == "tag_polychrome"@ || key == "tag_negative"@
        || key == "tag_double"@
}

/// Skipping a blind gives its tag and goes on to the next blind.
#[verifier::rlimit(40)]
pub proof fn law_skipping_gives_the_tag(m: RunModel)
    requires
        m.skip().refusal is None,
        m.tags.len() == 0,
        0 <= m.record.skips < 1_000_000,
        m.track.blind_on_deck == BlindStage::Small ==> waits(m.offers.blind_tag_small@),
        m.track.blind_on_deck == BlindStage::Big ==> waits(m.offers.blind_tag_big@),
    ensures
        ({
            let run = m.skip().run;
            let small = m.track.blind_on_deck == BlindStage::Small;
            let key = if small {
                m.offers.blind_tag_small
            } else {
                m.offers.blind_tag_big
            };
            &&& run.record.skips == m.record.skips + 1
            &&& run.tags.len() == 1 && run.tags[0].key == key
            &&& run.track.blind_on_deck == (if small {
                BlindStage::Big
            } else {
                BlindStage::Boss
            })
            &&& run.state == State::BlindSelect
            &&& run.purse == m.purse
        }),
{
    reveal(RunModel::skip);
    reveal(RunModel::tags_applied);
    reveal(RunModel::tag_applied);
    crate::key_marks::lemma_tag_marks();
    let small = m.track.blind_on_deck == BlindStage::Small;
    let key = if small {
        m.offers.blind_tag_small
    } else {
        m.offers.blind_tag_big
    };
    assert(key@ != "tag_orbital"@);
    let tag = crate::shop::RunTag { key, orbital_hand: None };
    reveal_with_fuel(round::tags_but, 1);
    let w = (RunModel {
        record: crate::run::Record { skips: m.record.skips.wrapping_add(1), ..m.record },
        ..m
    }).with_tag(key, None);
    assert(w.tags =~= seq![tag]);
    let track = if small {
        crate::run::Track { small_skipped: true, blind_on_deck: BlindStage::Big, ..w.track }
    } else {
        crate::run::Track { big_skipped: true, blind_on_deck: BlindStage::Boss, ..w.track }
    };
    let n = RunModel { track, ..w };
    reveal_with_fuel(RunModel::tags_stepped, 2);
    assert(n.tags_applied(crate::shop::TagContext::Immediate) == n);
    reveal_with_fuel(crate::tags::choice_tag, 2);
    assert(crate::tags::choice_tag(n.tags, 0) is None);
}

} // verus!
