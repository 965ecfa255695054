//! What the jokers leave as it is while they work.
use crate::cards::Card;
use crate::jokers::effects;
use crate::jokers::engine::{
    before_from, before_one, Discarding, Ending, Engine, Looking, Setting, Tally,
};
use crate::jokers::{law_resolution_ends_at_an_acting_joker, EngineHooks};
use crate::numbering::{copies, fresh, lemma_copies_push, same_numbers};
use crate::rng::Streams;
use crate::scoring;
use crate::scoring::{BeforeOutcome, HandView, HandsTable, JokerHooks, ScoreContext, Scoring};
use crate::shop::OwnedJoker;
use vstd::prelude::*;

verus! {

/// Whether jokers are the jokers of another row, in their places.
pub open spec fn same_row(a: Seq<OwnedJoker>, b: Seq<OwnedJoker>) -> bool {
    &&& a.len() == b.len()
    &&& forall|i: int|
        0 <= i < a.len() ==> (#[trigger] b[i]).id == a[i].id && b[i].sort_id == a[i].sort_id
}

/// Whether jokers that did some work are still in their places. They may have
/// given out numbers. Where there are none, nothing was done.
pub open spec fn works(a: Engine, b: Engine) -> bool {
    &&& same_row(a.jokers, b.jokers)
    &&& b.env == a.env
    &&& b.keys == a.keys
    &&& a.out.sort_ids_used <= b.out.sort_ids_used
    &&& a.jokers.len() == 0 ==> b.out == a.out
}

proof fn lemma_with(e: Engine, i: nat, t: usize, bp: bool, j: OwnedJoker)
    requires
        e.acting(i) == Some((t, bp)),
        j.id == e.jokers[t as int].id,
        j.sort_id == e.jokers[t as int].sort_id,
    ensures
        works(e, e.with(t, j)),
        t < e.jokers.len(),
{
    law_resolution_ends_at_an_acting_joker(e.jokers, i as usize);
}

// ---- cards added, destroyed and discarded ---------------------------------

proof fn lemma_added_from(e: Engine, count: nat, i: nat, n: nat)
    ensures
        works(e, e.added_from(count, i, n)),
    decreases n - i,
{
    if i < n {
        if let Some((t, bp)) = e.acting(i) {
            lemma_with(
                e,
                i,
                t,
                bp,
                e.jokers[t as int].gain_x(
                    crate::double::Double::frac(25, 100).times(
                        crate::double::Double::of(count as int),
                    ),
                ),
            );
        }
        lemma_added_from(e.added_step(count, i), count, i + 1, n);
    }
}

pub proof fn lemma_destroyed_from(e: Engine, cards: Seq<Card>, pareidolia: bool, i: nat, n: nat)
    ensures
        works(e, e.destroyed_from(cards, pareidolia, i, n)),
    decreases n - i,
{
    if i < n {
        law_resolution_ends_at_an_acting_joker(e.jokers, i as usize);
        assert(works(e, e.destroyed_one(cards, pareidolia, i)));
        lemma_destroyed_from(e.destroyed_one(cards, pareidolia, i), cards, pareidolia, i + 1, n);
    }
}

pub proof fn lemma_discarding(
    d: Discarding,
    card: Card,
    selected: Seq<Card>,
    pareidolia: bool,
    smeared: bool,
    i: nat,
    n: nat,
)
    ensures
        works(d.e, d.from(card, selected, pareidolia, smeared, i, n).e),
    decreases n - i,
{
    if i < n {
        law_resolution_ends_at_an_acting_joker(d.e.jokers, i as usize);
        let next = d.one(card, selected, pareidolia, smeared, i);
        assert(works(d.e, next.e)) by {
            reveal(effects::discard_step);
        }
        lemma_discarding(next, card, selected, pareidolia, smeared, i + 1, n);
    }
}

// ---- rounds --------------------------------------------------------------

pub proof fn lemma_first_hand(e: Engine, i: nat, n: nat)
    ensures
        works(e, e.first_hand_from(i, n)),
    decreases n - i,
{
    if i < n {
        let a = e.and(crate::jokers::OutEvent::CreateCertificate);
        lemma_added_from(a, 1, 0, a.jokers.len());
        assert(works(e, e.first_hand_step(i)));
        lemma_first_hand(e.first_hand_step(i), i + 1, n);
    }
}

pub proof fn lemma_setting(st: Setting, i: nat, n: nat)
    ensures
        works(st.e, st.from(i, n).e),
    decreases n - i,
{
    if i < n {
        law_resolution_ends_at_an_acting_joker(st.e.jokers, i as usize);
        let a = st.e.and(crate::jokers::OutEvent::CreateMarbleStone);
        lemma_added_from(a, 1, 0, a.jokers.len());
        assert(works(st.e, st.step(i).e));
        lemma_setting(st.step(i), i + 1, n);
    }
}

pub proof fn lemma_ending(st: Ending, hands: HandsTable, game_over: bool, i: nat, n: nat)
    ensures
        works(st.e, st.from(hands, game_over, i, n).e),
    decreases n - i,
{
    if i < n {
        law_resolution_ends_at_an_acting_joker(st.e.jokers, i as usize);
        let next = st.one(hands, game_over, i);
        assert(works(st.e, next.e)) by {
            reveal(effects::round_step);
        }
        lemma_ending(next, hands, game_over, i + 1, n);
    }
}

// ---- scoring -------------------------------------------------------------

proof fn lemma_play_from(
    l: Looking,
    v: HandView,
    card: Card,
    lucky: bool,
    pareidolia: bool,
    smeared: bool,
    i: nat,
    n: nat,
)
    ensures
        works(l.e, l.play_from(v, card, lucky, pareidolia, smeared, i, n).e),
    decreases n - i,
{
    if i < n {
        law_resolution_ends_at_an_acting_joker(l.e.jokers, i as usize);
        let next = l.play_one(v, card, lucky, pareidolia, smeared, i);
        assert(works(l.e, next.e)) by {
            reveal(effects::play_step);
        }
        lemma_play_from(next, v, card, lucky, pareidolia, smeared, i + 1, n);
    }
}

proof fn lemma_held_from(
    l: Looking,
    v: HandView,
    card: Card,
    pareidolia: bool,
    i: nat,
    n: nat,
)
    ensures
        works(l.e, l.held_from(v, card, pareidolia, i, n).e),
    decreases n - i,
{
    if i < n {
        law_resolution_ends_at_an_acting_joker(l.e.jokers, i as usize);
        let next = l.held_one(v, card, pareidolia, i);
        assert(works(l.e, next.e)) by {
            reveal(effects::held_step);
        }
        lemma_held_from(next, v, card, pareidolia, i + 1, n);
    }
}

proof fn lemma_tally(
    t: Tally,
    e: Engine,
    v: HandView,
    hands: HandsTable,
    triggered: bool,
    i: nat,
)
    ensures
        t.out.sort_ids_used <= t.from(e, v, hands, triggered, i).out.sort_ids_used,
    decreases e.jokers.len() - i,
{
    if i < e.jokers.len() {
        let next = t.one(e, v, hands, triggered, i);
        assert(t.out.sort_ids_used <= next.out.sort_ids_used) by {
            reveal(effects::main_step);
        }
        lemma_tally(next, e, v, hands, triggered, i + 1);
    }
}

proof fn lemma_after_from(e: Engine, i: nat, n: nat)
    ensures
        works(e, e.after_from(i, n)),
    decreases n - i,
{
    if i < n {
        law_resolution_ends_at_an_acting_joker(e.jokers, i as usize);
        assert(works(e, e.after_one(i)));
        lemma_after_from(e.after_one(i), i + 1, n);
    }
}

proof fn lemma_paid_eight(out: crate::jokers::Outbox, dollars: i64, n: nat)
    ensures
        crate::jokers::engine::paid_eight(out, dollars, n).0.sort_ids_used == out.sort_ids_used,
    decreases n,
{
    if n > 0 {
        lemma_paid_eight(out, dollars, (n - 1) as nat);
    }
}

/// The numbers given out come to this.
pub open spec fn reached(e: Engine) -> u32 {
    e.env.sort_id_base.saturating_add(e.out.sort_ids_used)
}

/// Whether a hand that the jokers looked at before it is scored has its cards,
/// and no cards but new ones beside.
pub open spec fn looked_over(a: BeforeOutcome<Engine>, b: BeforeOutcome<Engine>) -> bool {
    &&& works(a.hooks, b.hooks)
    &&& same_numbers(b.full_hand, a.full_hand)
    &&& reached(b.hooks) < u32::MAX ==> forall|x: u32|
        (#[trigger] copies(b.held, x)) <= copies(a.held, x) + fresh(
            reached(a.hooks),
            x,
            reached(b.hooks),
        )
}

proof fn lemma_gilded(v: HandView, pareidolia: bool, n: nat)
    requires
        v.valid(),
        n <= v.scoring.len(),
    ensures
        same_numbers(effects::gilded(v, pareidolia, n), v.full_hand),
    decreases n,
{
    if n > 0 {
        lemma_gilded(v, pareidolia, (n - 1) as nat);
        let at = v.scoring[n - 1];
    }
}

proof fn lemma_drained(v: HandView, n: nat)
    requires
        v.valid(),
        n <= v.scoring.len(),
    ensures
        same_numbers(effects::drained(v, n).0, v.full_hand),
    decreases n,
{
    if n > 0 {
        lemma_drained(v, (n - 1) as nat);
        let at = v.scoring[n - 1];
    }
}

proof fn lemma_before_one(v: HandView, o: BeforeOutcome<Engine>, i: nat)
    requires
        crate::handeval::places_below(v.scoring, o.full_hand.len()),
    ensures
        looked_over(o, before_one(v, o, i)),
{
    if let Some((t, bp)) = o.hooks.acting(i) {
        law_resolution_ends_at_an_acting_joker(o.hooks.jokers, i as usize);
        let step = effects::before_step(
            o.hooks.jokers[t as int],
            bp,
            crate::jokers::engine::standing(v, o),
            crate::jokers::owns(o.hooks.jokers, crate::items::JokerId::Pareidolia),
            o.hands,
            o.hooks.env,
            o.hooks.out,
            o.dollars,
            o.s,
        );
        assert(step.j.id == o.hooks.jokers[t as int].id && step.j.sort_id
            == o.hooks.jokers[t as int].sort_id && step.out.sort_ids_used
            == o.hooks.out.sort_ids_used && same_numbers(step.full_hand, o.full_hand)) by {
            reveal(effects::before_step);
            let seen = crate::jokers::engine::standing(v, o);
            lemma_gilded(
                seen,
                crate::jokers::owns(o.hooks.jokers, crate::items::JokerId::Pareidolia),
                seen.scoring.len(),
            );
            lemma_drained(seen, seen.scoring.len());
        }
        let e = Engine { out: step.out, ..o.hooks.with(t, step.j) };
        assert(works(o.hooks, e));
        if step.dna_copy {
            let r = before_one(v, o, i);
            let used = e.out.sort_ids_used.saturating_add(1);
            let out = crate::jokers::Outbox {
                sort_ids_used: used,
                playing_cards_delta: e.out.playing_cards_delta.wrapping_add(1),
                ..e.out
            };
            let e2 = Engine { out, ..e };
            lemma_added_from(e2, 1, 0, e2.jokers.len());
            assert(works(e2, r.hooks));
            let copy = Card { sort_id: e.env.sort_id_base.saturating_add(used), ..step.full_hand[0] };
            assert(r.held == o.held.push(copy));
            assert forall|x: u32| reached(r.hooks) < u32::MAX implies (#[trigger] copies(r.held, x))
                <= copies(o.held, x) + fresh(reached(o.hooks), x, reached(r.hooks)) by {
                lemma_copies_push(o.held, copy, x);
            }
        }
    }
}

proof fn lemma_before_from(v: HandView, o: BeforeOutcome<Engine>, i: nat, n: nat)
    requires
        crate::handeval::places_below(v.scoring, o.full_hand.len()),
    ensures
        looked_over(o, before_from(v, o, i, n)),
    decreases n - i,
{
    if i < n {
        lemma_before_one(v, o, i);
        let b = before_one(v, o, i);
        lemma_before_from(v, b, i + 1, n);
        let c = before_from(v, o, i, n);
        assert(reached(o.hooks) <= reached(b.hooks) <= reached(c.hooks));
    }
}

/// Whether two blinds are of a kind and ask for the same.
pub open spec fn same_foe(
    a: Option<crate::blinds::ActiveBlind>,
    b: Option<crate::blinds::ActiveBlind>,
) -> bool {
    match a {
        Some(a) => b matches Some(b) && b.proto == a.proto && b.chips == a.chips && b.disabled
            == a.disabled,
        None => b is None,
    }
}

/// Whether scoring left the jokers, the cards and the blind in their places.
pub open spec fn scores_on(a: Scoring<Engine>, b: Scoring<Engine>) -> bool {
    &&& works(a.hooks, b.hooks)
    &&& same_numbers(b.play, a.play)
    &&& b.held == a.held
    &&& same_foe(a.ctx.blind, b.ctx.blind)
}

proof fn lemma_after_effects(
    st: Scoring<Engine>,
    at: usize,
    effs: Seq<scoring::CardEffect>,
    n: nat,
)
    requires
        at < st.play.len(),
    ensures
        scores_on(st, st.after_effects(at, effs, n)),
    decreases n,
{
    if n > 0 {
        lemma_after_effects(st, at, effs, (n - 1) as nat);
    }
}

proof fn lemma_after_held_effects(st: Scoring<Engine>, effs: Seq<scoring::CardEffect>, n: nat)
    ensures
        scores_on(st, st.after_held_effects(effs, n)),
    decreases n,
{
    if n > 0 {
        lemma_after_held_effects(st, effs, (n - 1) as nat);
    }
}

proof fn lemma_on_play(m: Engine, v: HandView, card: Card, lucky: bool, s: Streams)
    ensures
        works(m, EngineHooks::on_play(m, v, card, lucky, s).1),
{
    lemma_play_from(
        Looking { e: m, effs: seq![], s },
        v,
        card,
        lucky,
        crate::jokers::owns(m.jokers, crate::items::JokerId::Pareidolia),
        crate::jokers::owns(m.jokers, crate::items::JokerId::Smeared),
        0,
        m.jokers.len(),
    );
}

proof fn lemma_on_hold(m: Engine, v: HandView, card: Card, s: Streams)
    ensures
        works(m, EngineHooks::on_hold(m, v, card, s).1),
{
    lemma_held_from(
        Looking { e: m, effs: seq![], s },
        v,
        card,
        crate::jokers::owns(m.jokers, crate::items::JokerId::Pareidolia),
        0,
        m.jokers.len(),
    );
}

proof fn lemma_scored_times(st: Scoring<Engine>, base: HandView, at: usize, n: nat)
    requires
        at < st.play.len(),
    ensures
        scores_on(st, scoring::scored_times::<EngineHooks>(st, base, at, n)),
    decreases n,
{
    if n > 0 {
        lemma_scored_times(st, base, at, (n - 1) as nat);
        let p = scoring::scored_times::<EngineHooks>(st, base, at, (n - 1) as nat);
        let card = p.play[at as int];
        let (eff, lucky, s) = scoring::play_value(card, p.ctx.prob_normal, p.s);
        lemma_on_play(p.hooks, p.seen(base), card, lucky, s);
        let (effs, hooks, s2) = EngineHooks::on_play(p.hooks, p.seen(base), card, lucky, s);
        let here = Scoring { hooks, s: s2, ..p };
        lemma_after_effects(here.with_score(eff.played_on(here.score())), at, effs, effs.len());
    }
}

proof fn lemma_scored_cards(st: Scoring<Engine>, base: HandView, n: nat)
    requires
        crate::handeval::places_below(base.scoring, st.play.len()),
        n <= base.scoring.len(),
    ensures
        scores_on(st, scoring::scored_cards::<EngineHooks>(st, base, n)),
    decreases n,
{
    if n > 0 {
        lemma_scored_cards(st, base, (n - 1) as nat);
        let p = scoring::scored_cards::<EngineHooks>(st, base, (n - 1) as nat);
        let at = base.scoring[n - 1];
        let card = p.play[at as int];
        let (more, hooks, s) = EngineHooks::repetitions(p.hooks, p.seen(base), card, p.s);
        let red = if card.seal == crate::cards::Seal::Red {
            1nat
        } else {
            0
        };
        lemma_scored_times(Scoring { hooks, s, ..p }, base, at, 1 + red + more as nat);
    }
}

proof fn lemma_held_times(st: Scoring<Engine>, base: HandView, card: Card, n: nat)
    ensures
        scores_on(st, scoring::held_times::<EngineHooks>(st, base, card, n)),
    decreases n,
{
    if n > 0 {
        lemma_held_times(st, base, card, (n - 1) as nat);
        let p = scoring::held_times::<EngineHooks>(st, base, card, (n - 1) as nat);
        lemma_on_hold(p.hooks, p.seen(base), card, p.s);
        let (effs, hooks, s) = EngineHooks::on_hold(p.hooks, p.seen(base), card, p.s);
        let here = Scoring { hooks, s, ..p };
        lemma_after_held_effects(
            here.with_score(scoring::held_value(card).held_on(here.score())),
            effs,
            effs.len(),
        );
    }
}

proof fn lemma_held_card(st: Scoring<Engine>, base: HandView, card: Card)
    ensures
        scores_on(st, scoring::held_card::<EngineHooks>(st, base, card)),
{
    lemma_on_hold(st.hooks, st.seen(base), card, st.s);
    let (effs, hooks, s) = EngineHooks::on_hold(st.hooks, st.seen(base), card, st.s);
    let has = !scoring::held_value(card).nothing() || effs.len() > 0;
    let (more, hooks2, s2) = EngineHooks::held_repetitions(hooks, st.seen(base), card, has, s);
    let red = if card.seal == crate::cards::Seal::Red && !card.debuff && has {
        1nat
    } else {
        0
    };
    let here = Scoring { hooks: hooks2, s: s2, ..st };
    let a = here.with_score(scoring::held_value(card).held_on(here.score()));
    lemma_after_held_effects(a, effs, effs.len());
    lemma_held_times(a.after_held_effects(effs, effs.len()), base, card, red + more as nat);
}

proof fn lemma_held_cards(st: Scoring<Engine>, base: HandView, n: nat)
    ensures
        scores_on(st, scoring::held_cards::<EngineHooks>(st, base, n)),
    decreases n,
{
    if n > 0 {
        lemma_held_cards(st, base, (n - 1) as nat);
        lemma_held_card(
            scoring::held_cards::<EngineHooks>(st, base, (n - 1) as nat),
            base,
            st.held[n - 1],
        );
    }
}

proof fn lemma_totalled(st: Scoring<Engine>, base: HandView)
    requires
        crate::handeval::places_below(base.scoring, st.play.len()),
    ensures
        scores_on(st, scoring::totalled::<EngineHooks>(st, base)),
{
    lemma_scored_cards(st, base, base.scoring.len());
    let a = scoring::scored_cards::<EngineHooks>(st, base, base.scoring.len());
    lemma_held_cards(a, base, a.held.len());
    let h = scoring::held_cards::<EngineHooks>(a, base, a.held.len());
    lemma_tally(
        Tally { out: h.hooks.out, chips: h.chips, mult: h.mult, dollars: h.ctx.dollars, s: h.s },
        Engine { out: crate::jokers::Outbox::empty(), ..h.hooks },
        h.seen(base),
        h.ctx.hands,
        scoring::is_triggered(h.ctx.blind),
        0,
    );
}

proof fn lemma_broken(st: Scoring<Engine>, base: HandView, n: nat)
    ensures
        works(st.hooks, scoring::broken::<EngineHooks>(st, base, n).hooks),
    decreases n,
{
    if n > 0 {
        lemma_broken(st, base, (n - 1) as nat);
    }
}

/// A hand that was played has its cards and its blind, and the held cards have
/// no cards but new ones beside.
pub proof fn lemma_played(
    ctx: ScoreContext,
    play: Seq<Card>,
    held: Seq<Card>,
    hooks: Engine,
    s: Streams,
)
    requires
        play.len() <= usize::MAX,
    ensures
        ({
            let p = scoring::played::<EngineHooks>(ctx, play, held, hooks, s);
            &&& works(hooks, p.end.hooks)
            &&& same_numbers(p.end.play, play)
            &&& same_foe(ctx.blind, p.end.ctx.blind)
            &&& reached(p.end.hooks) < u32::MAX ==> forall|x: u32|
                (#[trigger] copies(p.end.held, x)) <= copies(held, x) + fresh(
                    reached(hooks),
                    x,
                    reached(p.end.hooks),
                )
        }),
{
    let base = scoring::hand_shown(play, ctx.mods, EngineHooks::all_cards_score(hooks));
    scoring::law_scoring_cards_are_played(play, ctx.mods, EngineHooks::all_cards_score(hooks));
    let (ctx1, debuffed) = scoring::judged(ctx, play.len(), base.hand_type);
    assert(same_foe(ctx.blind, ctx1.blind)) by {
        reveal(crate::blinds::ActiveBlind::verdict);
    }
    let zero = crate::double::Double::of(0);
    let st = Scoring { hooks, ctx: ctx1, play, held, chips: zero, mult: zero, s };
    let p = scoring::played::<EngineHooks>(ctx, play, held, hooks, s);
    if debuffed {
        lemma_paid_eight(
            hooks.out,
            ctx1.dollars,
            crate::jokers::engine::acting_as(
                hooks.jokers,
                crate::items::JokerId::Matador,
                hooks.jokers.len(),
            ),
        );
        let r = scoring::refused::<EngineHooks>(st, base);
        lemma_after_from(r.hooks, 0, r.hooks.jokers.len());
    } else {
        let v = st.seen(base);
        let first = BeforeOutcome {
            hooks,
            full_hand: v.full_hand,
            held: v.held,
            hands: ctx1.hands,
            dollars: ctx1.dollars,
            s,
        };
        lemma_before_from(v, first, 0, hooks.jokers.len());
        let o = scoring::opened::<EngineHooks>(st, base);
        lemma_totalled(o, base);
        let t = scoring::totalled::<EngineHooks>(o, base);
        lemma_broken(t, base, base.scoring.len());
        let b = scoring::broken::<EngineHooks>(t, base, base.scoring.len());
        let gone = scoring::cards_at(t.play, b.destroyed);
        lemma_destroyed_from(
            b.hooks,
            gone,
            crate::jokers::owns(b.hooks.jokers, crate::items::JokerId::Pareidolia),
            0,
            b.hooks.jokers.len(),
        );
        let mourned = scoring::mourned::<EngineHooks>(b.hooks, t.play, b.destroyed);
        lemma_after_from(mourned, 0, mourned.jokers.len());
        assert(works(o.hooks, p.end.hooks));
        assert(reached(o.hooks) <= reached(p.end.hooks));
    }
}

} // verus!
