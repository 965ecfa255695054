//! What holds of every run at every time.
use crate::blinds;
use crate::cards::{Card, Edition};
use crate::course;
use crate::items::{ConsumableSet, JokerId, PackKind};
use crate::jokers::engine::Engine;
use crate::jokers::{EngineHooks, OutEvent, Outbox};
use crate::making;
use crate::numbering::lemma_chosen;
use crate::registry::Key;
use crate::round;
use crate::round::disabling;
use crate::run::{Limits, Offers, Purse, RunModel, State, Track};
use crate::scoring;
use crate::scoring::JokerHooks;
use crate::shop::{
    JokerArea, OwnedJoker, PackItem, PackReturn, RunTag, ShopItem, ShopModel, TagContext,
    VoucherOffer,
};
use crate::tags;
use crate::tarots::CreateKind;
use crate::double::Double;
use crate::windows::lemma_played;
use vstd::prelude::*;

verus! {

impl RunModel {
    /// Whether the run can go on: it is not won yet, and no ante past the last
    /// was reached; or it is won.
    pub open spec fn in_bounds(self) -> bool {
        self.track.won || self.track.ante <= 8
    }

    /// What holds of every run that was started and not tampered with: an open
    /// shop and an open pack are there while the run waits in them and at no other
    /// time, the boss is
    /// one of the bosses, every blind is of an ante up to the last, and the blinds
    /// to come are those of the ante.
    pub open spec fn sound(self) -> bool {
        &&& (self.pack is Some) == (self.state == State::PackOpen)
        &&& (self.shop is Some) == (self.state == State::Shop || (self.state == State::PackOpen
            && self.pack->0.return_to == PackReturn::Shop))
        &&& blinds::boss_from(self.track.boss_choice@, 0) is Some
        &&& match self.state {
            State::GameOver => true,
            State::Won => true,
            State::RoundEval => self.in_bounds() && self.in_step(),
            _ => !self.track.won && self.track.ante <= 8 && self.track.blind_ante
                == self.track.ante,
        }
    }

    /// Whether the blinds are those of the ante: they are, but that a beaten boss
    /// moves the ante on before the next blinds come.
    pub open spec fn in_step(self) -> bool {
        self.track.blind_ante == self.track.ante || (self.round_over() && self.foe().is_boss)
    }

    /// Whether a round is on or over.
    pub open spec fn in_round(self) -> bool {
        self.state == State::SelectingHand || self.round_over()
    }

    pub open spec fn round_over(self) -> bool {
        self.state == State::RoundEval || self.state == State::GameOver
    }
}

/// Whether a run can have come out of another by what happens while it waits:
/// nothing moves but that a round that is on may end, and what was scored stays
/// as it is.
pub open spec fn follows(a: RunModel, b: RunModel) -> bool {
    goes_on(a, b) && same_tally(a, b)
}

/// Whether what was scored in the round, and the last hand, are the same.
pub open spec fn same_tally(a: RunModel, b: RunModel) -> bool {
    b.round.chips == a.round.chips && b.last_play == a.last_play
}

/// Whether a run can have come out of another by what happens in a round.
pub open spec fn goes_on(a: RunModel, b: RunModel) -> bool {
    &&& (b.shop is Some) == (a.shop is Some)
    &&& b.pack == a.pack
    &&& b.track.boss_choice == a.track.boss_choice
    &&& b.foe() == a.foe()
    &&& b.track.blind_ante == a.track.blind_ante
    &&& {
        ||| b.state == a.state && b.track.ante == a.track.ante && b.track.won == a.track.won
        ||| a.in_round() && b.round_over() && (a.in_bounds() ==> b.in_bounds()) && (
        b.foe().is_boss || b.track.ante == a.track.ante)
    }
}

/// Whether a way to disable a blind moves nothing but what may move.
pub open spec fn harmless(d: spec_fn(RunModel) -> RunModel) -> bool {
    forall|m: RunModel| follows(m, #[trigger] d(m))
}

// ---- draws ---------------------------------------------------------------

broadcast proof fn lemma_consumable_drawn(
    m: RunModel,
    set: ConsumableSet,
    append: Key,
    soulable: bool,
)
    ensures
        follows(m, (#[trigger] m.consumable_drawn(set, append, soulable)).1),
{
    reveal(RunModel::consumable_drawn);
}

broadcast proof fn lemma_first_state(m: RunModel, id: JokerId)
    ensures
        follows(m, (#[trigger] m.first_state(id)).1),
{
    reveal(RunModel::first_state);
}

broadcast proof fn lemma_joker_made(
    m: RunModel,
    rarity: Option<Double>,
    legendary: bool,
    append: Key,
    area: JokerArea,
)
    ensures
        follows(m, (#[trigger] m.joker_made(rarity, legendary, append, area)).1),
{
    reveal(RunModel::joker_made);
    reveal(RunModel::first_state);
}

broadcast proof fn lemma_voucher_drawn(m: RunModel, from_tag: bool)
    ensures
        follows(m, (#[trigger] m.voucher_drawn(from_tag)).1),
{
    reveal(RunModel::voucher_drawn);
}

broadcast proof fn lemma_tag_drawn(m: RunModel)
    ensures
        follows(m, (#[trigger] m.tag_drawn()).1),
{
    reveal(RunModel::tag_drawn);
}

broadcast proof fn lemma_reroll_priced(m: RunModel, skip: bool)
    ensures
        follows(m, #[trigger] m.reroll_priced(skip)),
{
    reveal(RunModel::reroll_priced);
}

broadcast proof fn lemma_marks_reset(m: RunModel)
    ensures
        follows(m, #[trigger] m.marks_reset()),
{
    reveal(RunModel::idol_reset);
    reveal(RunModel::mail_reset);
    reveal(RunModel::castle_reset);
    reveal(RunModel::ancient_reset);
}

broadcast group group_draws {
    lemma_consumable_drawn,
    lemma_first_state,
    lemma_joker_made,
    lemma_voucher_drawn,
    lemma_tag_drawn,
    lemma_reroll_priced,
    lemma_marks_reset,
}

// ---- jokers --------------------------------------------------------------

broadcast proof fn lemma_passives_off(m: RunModel, j: OwnedJoker)
    ensures
        follows(m, #[trigger] m.passives_off(j)),
{
    broadcast use group_draws;

    reveal(RunModel::passives_off);
    reveal(RunModel::with_free_rerolls);
}

broadcast proof fn lemma_passives_on(m: RunModel, j: OwnedJoker, d: spec_fn(RunModel) -> RunModel)
    requires
        harmless(d),
    ensures
        follows(m, #[trigger] m.passives_on(j, d)),
{
    broadcast use group_draws;

    reveal(RunModel::passives_on);
    reveal(RunModel::with_free_rerolls);
}

broadcast proof fn lemma_with_joker(m: RunModel, j: OwnedJoker, d: spec_fn(RunModel) -> RunModel)
    requires
        harmless(d),
    ensures
        follows(m, #[trigger] m.with_joker(j, d)),
{
    reveal(RunModel::with_joker);
    let slots = m.with_joker_slots(m.limits.joker_slots.wrapping_add(1));
    lemma_passives_on(m, j, d);
    lemma_passives_on(slots, j, d);
}

broadcast proof fn lemma_without_joker(m: RunModel, i: nat)
    ensures
        follows(m, #[trigger] m.without_joker(i)),
{
    broadcast use lemma_passives_off;

    reveal(RunModel::without_joker);
}

broadcast proof fn lemma_joker_debuffed(
    m: RunModel,
    i: nat,
    debuff: bool,
    d: spec_fn(RunModel) -> RunModel,
)
    requires
        harmless(d),
    ensures
        follows(m, #[trigger] m.joker_debuffed(i, debuff, d)),
{
    broadcast use {lemma_passives_off, lemma_passives_on};

    reveal(RunModel::joker_debuffed);
}

broadcast proof fn lemma_jokers_cleared(
    m: RunModel,
    i: nat,
    n: nat,
    d: spec_fn(RunModel) -> RunModel,
)
    requires
        harmless(d),
    ensures
        follows(m, #[trigger] m.jokers_cleared(i, n, d)),
    decreases n - i,
{
    reveal(RunModel::jokers_cleared);
    if i < n {
        lemma_joker_debuffed(m, i, false, d);
        lemma_jokers_cleared(m.joker_debuffed(i, false, d), i + 1, n, d);
    }
}

broadcast proof fn lemma_jokers_created(
    m: RunModel,
    count: nat,
    d: spec_fn(RunModel) -> RunModel,
)
    requires
        harmless(d),
    ensures
        follows(m, #[trigger] m.jokers_created(count, d)),
    decreases count,
{
    broadcast use {lemma_joker_made, lemma_with_joker};

    reveal(RunModel::jokers_created);
    if count > 0 {
        lemma_jokers_created(m, (count - 1) as nat, d);
    }
}

broadcast proof fn lemma_event_done(m: RunModel, e: OutEvent, d: spec_fn(RunModel) -> RunModel)
    requires
        harmless(d),
    ensures
        follows(m, #[trigger] m.event_done(e, d)),
{
    broadcast use {lemma_consumable_drawn, lemma_without_joker, lemma_jokers_created};

    reveal(RunModel::event_done);
    reveal(RunModel::marble_made);
    reveal(RunModel::certificate_made);
    reveal(RunModel::gifts_given);
    assert(follows(m, d(m)));
}

broadcast proof fn lemma_events_done(
    m: RunModel,
    events: Seq<OutEvent>,
    i: nat,
    d: spec_fn(RunModel) -> RunModel,
)
    requires
        harmless(d),
    ensures
        follows(m, #[trigger] m.events_done(events, i, d)),
    decreases events.len() - i,
{
    reveal(RunModel::events_done);
    if i < events.len() {
        lemma_event_done(m, events[i as int], d);
        lemma_events_done(m.event_done(events[i as int], d), events, i + 1, d);
    }
}

broadcast proof fn lemma_settled(m: RunModel, out: Outbox, d: spec_fn(RunModel) -> RunModel)
    requires
        harmless(d),
    ensures
        follows(m, #[trigger] m.settled(out, d)),
{
    broadcast use lemma_events_done;

    reveal(RunModel::settled);
}

broadcast group group_jokers {
    lemma_passives_off,
    lemma_passives_on,
    lemma_with_joker,
    lemma_without_joker,
    lemma_joker_debuffed,
    lemma_jokers_cleared,
    lemma_jokers_created,
    lemma_settled,
}

// ---- the end of a round --------------------------------------------------

proof fn lemma_hushing()
    ensures
        harmless(round::hushing()),
        harmless(disabling(false)),
{
    reveal(RunModel::quieted);
    assert forall|m: RunModel| follows(m, #[trigger] round::hushing()(m)) by {}
}

proof fn lemma_with_planets(m: RunModel, n: nat)
    ensures
        follows(m, m.with_planets(n)),
        m.with_planets(n).state == m.state,
        m.with_planets(n).track == m.track,
    decreases n,
{
    if m.record.last_hand_played is Some && n > 0 {
        lemma_with_planets(m, (n - 1) as nat);
    }
}

/// Held cards at the end of a round leave the jokers as they are.
proof fn lemma_round_looks(
    st: scoring::RoundCards<Engine>,
    card: Card,
    room: nat,
    n: nat,
)
    ensures
        scoring::round_looks::<EngineHooks>(st, card, room, n).hooks == st.hooks,
    decreases n,
{
    if n > 0 {
        lemma_round_looks(st, card, room, (n - 1) as nat);
    }
}

pub proof fn lemma_round_cards(
    st: scoring::RoundCards<Engine>,
    hand: Seq<Card>,
    room: nat,
    n: nat,
)
    ensures
        scoring::round_cards::<EngineHooks>(st, hand, room, n).hooks == st.hooks,
    decreases n,
{
    if n > 0 {
        lemma_round_cards(st, hand, room, (n - 1) as nat);
        let before = scoring::round_cards::<EngineHooks>(st, hand, room, (n - 1) as nat);
        let once = scoring::round_look::<EngineHooks>(before, hand[n - 1], room);
        let c = hand[n - 1];
        assert forall|k: nat|
            (#[trigger] scoring::round_looks::<EngineHooks>(once, c, room, k)).hooks
                == once.hooks by {
            lemma_round_looks(once, c, room, k);
        }
    }
}

/// Counting a round out moves nothing at all.
proof fn lemma_counted_out(m: RunModel, d: spec_fn(RunModel) -> RunModel)
    ensures
        follows(m, m.counted_out(d)),
        m.counted_out(d).state == m.state,
        m.counted_out(d).track == m.track,
{
    reveal(RunModel::counted_out);
    reveal(RunModel::held_done);
    reveal(RunModel::settled);
    reveal(RunModel::events_done);
    let h = m.held_done();
    lemma_round_cards(
        scoring::RoundCards {
            hooks: m.engine(seq![]),
            s: m.s,
            dollars: m.purse.dollars,
            planets: 0,
        },
        m.hand,
        m.consumable_room(),
        m.hand.len(),
    );
    let (bonus, e) = EngineHooks::payouts(h.hooks);
    let m1 = (RunModel { s: h.s, purse: Purse { dollars: h.dollars, ..m.purse }, ..m }).rejoined(
        e,
        d,
    );
    lemma_with_planets(m1, h.planets);
}

/// Gathering the cards moves the ante on after a boss.
proof fn lemma_gathered(m: RunModel)
    ensures
        same_tally(m, m.gathered()),
        m.gathered().shop == m.shop,
        m.gathered().pack == m.pack,
        m.gathered().foe() == m.foe(),
        m.gathered().state == m.state,
        m.gathered().track.boss_choice == m.track.boss_choice,
        m.gathered().track.won == m.track.won,
        m.gathered().track.blind_ante == m.track.blind_ante,
        m.gathered().track.ante == if m.foe().is_boss {
            m.track.ante.wrapping_add(1)
        } else {
            m.track.ante
        },
{
    reveal(RunModel::gathered);
    reveal(RunModel::voucher_drawn);
}

broadcast proof fn lemma_expired(m: RunModel)
    ensures
        follows(m, #[trigger] m.expired()),
        m.expired().state == m.state,
        m.expired().track == m.track,
{
    reveal(RunModel::expired);
    reveal(RunModel::reroll_priced);
}

/// A won round: the ante moves on after a boss, and the boss of the last ante
/// wins the run.
proof fn lemma_won_round(m: RunModel, d: spec_fn(RunModel) -> RunModel)
    requires
        harmless(d),
        m.in_round(),
    ensures
        follows(m, m.won_round(d)),
        m.won_round(d).round_over(),
{
    reveal(RunModel::won_round);
    let r = m.recorded();
    lemma_counted_out(r, d);
    let manacle = m.round.active_blind matches Some(b) && b.named("The Manacle"@) && !b.disabled;
    let c = if manacle {
        r.counted_out(d).resized(1)
    } else {
        r.counted_out(d)
    };
    lemma_gathered(c);
    let g = c.gathered();
    lemma_expired(g);
    let e = g.expired();
    lemma_marks_reset(e);
    let k = e.marks_reset().jokers_shown();
    lemma_jokers_cleared(k, 0, k.jokers.len(), d);
}

broadcast proof fn lemma_ended(m: RunModel, d: spec_fn(RunModel) -> RunModel)
    requires
        harmless(d),
        m.in_round(),
    ensures
        follows(m, #[trigger] m.ended(d)),
        m.ended(d).round_over(),
{
    broadcast use lemma_settled;

    reveal(RunModel::ended);
    let (saved, e, s) = EngineHooks::at_round_end(
        m.engine(seq![]),
        m.record.hands,
        m.round_lost(),
        m.s,
    );
    let m1 = (RunModel { s, ..m }).rejoined(e, d);
    lemma_won_round(m1, d);
}

broadcast proof fn lemma_disabled(m: RunModel)
    ensures
        follows(m, #[trigger] m.disabled()),
{
    reveal(RunModel::disabled);
    lemma_hushing();
    assert(follows(m, round::hushing()(m)));
    if m.hushed().state == State::SelectingHand {
        lemma_ended(m.hushed(), round::hushing());
    }
}

broadcast proof fn lemma_disabling(may_end: bool)
    ensures
        harmless(#[trigger] disabling(may_end)),
{
    lemma_hushing();
    if may_end {
        assert forall|m: RunModel| follows(m, #[trigger] disabling(true)(m)) by {
            lemma_disabled(m);
        }
    }
}

// ---- hands ---------------------------------------------------------------

proof fn lemma_drawn(m: RunModel, n: nat)
    ensures
        follows(m, m.drawn(n)),
    decreases n,
{
    if n > 0 {
        lemma_drawn(m, (n - 1) as nat);
    }
}

broadcast proof fn lemma_hand_drawn(m: RunModel)
    ensures
        follows(m, #[trigger] m.hand_drawn()),
{
    broadcast use {group_jokers, lemma_disabling};

    reveal(RunModel::hand_drawn);
    lemma_drawn(m, m.draw_count());
}

proof fn lemma_with_tarots(m: RunModel, n: nat)
    ensures
        follows(m, m.with_tarots(n)),
    decreases n,
{
    broadcast use lemma_consumable_drawn;

    if n > 0 {
        lemma_with_tarots(m, (n - 1) as nat);
    }
}

broadcast proof fn lemma_discarded(m: RunModel, cards: Seq<Card>, hook: bool)
    ensures
        follows(m, #[trigger] m.discarded(cards, hook)),
{
    broadcast use {lemma_settled, lemma_disabling};

    reveal(RunModel::discarded);
    assert forall|x: RunModel, n: nat| follows(x, #[trigger] x.with_tarots(n)) by {
        lemma_with_tarots(x, n);
    }
}

pub proof fn lemma_hand_played(m: RunModel, sel: Seq<usize>)
    requires
        m.state == State::SelectingHand,
        sel.len() <= usize::MAX,
    ensures
        goes_on(m, m.hand_played(sel)),
        ({
            let p = m.hand_result(sel);
            &&& m.hand_played(sel).last_play == Some(p)
            &&& m.hand_played(sel).round.chips == m.round.chips.plus(p.score)
        }),
{
    broadcast use {lemma_settled, lemma_disabling, lemma_discarded};

    reveal(RunModel::hand_played);
    reveal(RunModel::laid);
    reveal(RunModel::pressed);
    let l = m.laid(sel);
    assert(follows(m, l));
    let cards = crate::play::laid_down(crate::play::taken(m.hand, sel));
    let p = l.scored(cards);
    let a = l.after_score(p);
    assert(follows(l, a)) by {
        reveal(RunModel::scored);
        lemma_played(l.score_context(), cards, l.hand, l.engine(cards), l.s);
    }
    let c = a.cleared(p, l.purse.dollars);
    if c.in_round() {
        lemma_ended(c, disabling(true));
    }
    lemma_hand_drawn(c);
}

/// Playing and discarding keep a run sound.
pub proof fn law_playing_keeps_runs_sound(m: RunModel, indices: Seq<usize>)
    requires
        m.sound(),
    ensures
        m.play(indices).run.sound(),
        m.discard(indices).run.sound(),
{
    broadcast use {lemma_discarded, lemma_hand_drawn};

    reveal(RunModel::play);
    reveal(RunModel::discard);
    if m.state == State::SelectingHand {
        match m.chosen(indices) {
            Ok(sel) => {
                lemma_chosen(m, indices, sel);
                lemma_hand_played(m, sel);
            },
            Err(_) => {},
        }
    }
}

// ---- tags and packs ------------------------------------------------------

broadcast proof fn lemma_tag_applied(m: RunModel, tag: RunTag, ctx: TagContext)
    ensures
        follows(m, (#[trigger] m.tag_applied(tag, ctx)).1),
{
    broadcast use {group_draws, lemma_with_joker, lemma_disabling};

    reveal(RunModel::tag_applied);
}

proof fn lemma_tags_stepped(m: RunModel, ctx: TagContext, i: nat, n: nat)
    ensures
        follows(m, m.tags_stepped(ctx, i, n)),
    decreases n,
{
    broadcast use lemma_tag_applied;

    if n > 0 && i < m.tags.len() {
        let (m1, j) = m.tag_step(ctx, i);
        lemma_tags_stepped(m1, ctx, j, (n - 1) as nat);
    }
}

broadcast proof fn lemma_tags_applied(m: RunModel, ctx: TagContext)
    ensures
        follows(m, #[trigger] m.tags_applied(ctx)),
{
    reveal(RunModel::tags_applied);
    lemma_tags_stepped(m, ctx, 0, m.tags.len());
}

proof fn lemma_pack_card(m: RunModel, kind: PackKind, i: nat)
    ensures
        follows(m, m.pack_card(kind, i).1),
{
    broadcast use group_draws;

    reveal(RunModel::pack_card);
    reveal(RunModel::standard_card);
}

proof fn lemma_pack_filled(m: RunModel, kind: PackKind, n: nat)
    ensures
        follows(m, m.pack_filled(kind, n).1),
    decreases n,
{
    if n > 0 {
        lemma_pack_filled(m, kind, (n - 1) as nat);
        lemma_pack_card(m.pack_filled(kind, (n - 1) as nat).1, kind, (n - 1) as nat);
    }
}

proof fn lemma_with_visions(m: RunModel, n: nat)
    ensures
        follows(m, m.with_visions(n)),
    decreases n,
{
    broadcast use lemma_consumable_drawn;

    if n > 0 {
        lemma_with_visions(m, (n - 1) as nat);
    }
}

proof fn lemma_moved(m: RunModel, n: nat)
    ensures
        follows(m, m.moved(n)),
    decreases n,
{
    if n > 0 {
        lemma_moved(m, (n - 1) as nat);
    }
}

/// A pack opens from blind select or from a shop.
proof fn lemma_pack_opened(m: RunModel, key: Key, return_to: PackReturn)
    requires
        m.sound(),
        m.state == State::BlindSelect || m.state == State::Shop,
        (return_to == PackReturn::Shop) == (m.shop is Some),
    ensures
        m.pack_opened(key, return_to).sound(),
{
    reveal(RunModel::pack_opened);
    match crate::items::booster_named(key@) {
        None => {},
        Some(meta) => {
            lemma_pack_filled(m, meta.kind, meta.cards as nat);
            let (list, m1) = m.pack_filled(meta.kind, meta.cards as nat);
            let (visions, s) = m1.hallucinated(m1.jokers.len());
            let m2 = RunModel { s, ..m1 };
            lemma_with_visions(m2, visions);
            let m3 = m2.with_visions(visions);
            let n = if m3.deck.len() < m3.hand_room() {
                m3.deck.len()
            } else {
                m3.hand_room()
            };
            lemma_moved(m3, n);
        },
    }
}

/// The boss drawn next is one of the bosses.
broadcast proof fn lemma_boss_redrawn(m: RunModel)
    ensures
        blinds::boss_from((#[trigger] m.boss_redrawn()).track.boss_choice@, 0) is Some,
{
    blinds::law_next_boss_is_least_used(m.s, m.bosses_used, m.track.ante, 8);
    let key = blinds::next_boss(m.s, m.bosses_used, m.track.ante, 8);
    let i = choose|i: int|
        0 <= i < 28 && blinds::is_least_used(m.bosses_used, m.track.ante, 8, i) && key == (
        #[trigger] blinds::boss(i)).key;
    blinds::law_bosses_are_found(i as nat, 0);
}

proof fn lemma_choices_tagged(m: RunModel)
    requires
        m.sound(),
        m.state == State::BlindSelect,
    ensures
        m.choices_tagged().sound(),
    decreases m.tags.len(),
{
    match tags::choice_tag(m.tags, 0) {
        None => {},
        Some(i) => {
            if i < m.tags.len() {
                let key = m.tags[i as int].key@;
                let m1 = RunModel { tags: m.tags.remove(i as int), ..m };
                match tags::tag_pack(key) {
                    Some(pack) => {
                        lemma_pack_opened(m1.numbered(), pack, PackReturn::BlindSelect);
                    },
                    None => {
                        let m2 = RunModel {
                            track: Track { boss_rerolled: true, ..m1.track },
                            ..m1
                        };
                        lemma_boss_redrawn(m2);
                        lemma_choices_tagged(m2.boss_redrawn());
                    },
                }
            }
        },
    }
}

/// Whether a run can go to blind select.
spec fn may_select(m: RunModel) -> bool {
    !m.track.won && m.track.ante <= 8 && m.track.blind_ante == m.track.ante && blinds::boss_from(
        m.track.boss_choice@,
        0,
    ) is Some
}

proof fn lemma_at_blind_select(m: RunModel)
    requires
        may_select(m),
        m.shop is None,
        m.pack is None,
    ensures
        m.at_blind_select().sound(),
{
    reveal(RunModel::at_blind_select);
    let m1 = (RunModel { state: State::BlindSelect, ..m }).orbitals_drawn();
    lemma_tags_applied(m1, TagContext::Immediate);
    lemma_choices_tagged(m1.tags_applied(TagContext::Immediate));
}

/// Skipping a blind and drawing the boss anew keep a run sound.
pub proof fn law_skipping_keeps_runs_sound(m: RunModel)
    requires
        m.sound(),
    ensures
        m.skip().run.sound(),
        m.reroll_boss().run.sound(),
{
    broadcast use {lemma_tags_applied, lemma_boss_redrawn};

    reveal(RunModel::skip);
    reveal(RunModel::reroll_boss);
    if m.state == State::BlindSelect {
        assert forall|x: RunModel| x.sound() && x.state == State::BlindSelect implies (
        #[trigger] x.choices_tagged()).sound() by {
            lemma_choices_tagged(x);
        }
    }
}

/// Taking on a blind keeps a run sound, and asks for no ante past the last.
pub proof fn law_selecting_keeps_runs_sound(m: RunModel, amount: Double)
    requires
        m.sound(),
    ensures
        m.blind_selected(amount).run.sound(),
        m.state == State::BlindSelect ==> m.track.blind_ante <= 8,
{
    broadcast use {
        group_draws,
        lemma_settled,
        lemma_disabling,
        lemma_tags_applied,
        lemma_hand_drawn,
    };

    reveal(RunModel::blind_selected);
    reveal(RunModel::round_begun);
    reveal(RunModel::blind_set);
    reveal(RunModel::blind_taken);
    reveal(RunModel::acorn_mixed);
    reveal(RunModel::blind_seen);
}

// ---- consumables ---------------------------------------------------------

proof fn lemma_target_effect(m: RunModel, key: Seq<char>, targets: Seq<usize>)
    ensures
        m.target_effect(key, targets) matches Some(x) ==> follows(m, x),
{
    reveal(RunModel::target_effect);
}

proof fn lemma_many_created(m: RunModel, kind: CreateKind, n: nat)
    ensures
        follows(m, m.many_created(kind, n)),
    decreases n,
{
    if n > 0 {
        lemma_many_created(m, kind, (n - 1) as nat);
    }
}

proof fn lemma_burned(m: RunModel, cards: Seq<Card>, n: nat)
    ensures
        follows(m, m.burned(cards, n)),
    decreases n,
{
    if n > 0 {
        lemma_burned(m, cards, (n - 1) as nat);
    }
}

broadcast proof fn lemma_exchanged(m: RunModel, kind: CreateKind, extra: nat)
    ensures
        follows(m, #[trigger] m.exchanged(kind, extra)),
{
    lemma_many_created(m.one_destroyed(), kind, extra);
}

proof fn lemma_immolated(m: RunModel)
    ensures
        follows(m, m.immolated()),
{
    let cards = crate::deck::shuffled(m.hand, m.s.drawn_seed("immolate"@));
    let n = if m.hand.len() < 5 {
        m.hand.len()
    } else {
        5
    };
    lemma_burned(m.after("immolate"@), cards, n);
}

proof fn lemma_hand_effect(m: RunModel, key: Seq<char>, targets: Seq<usize>)
    ensures
        m.hand_effect(key, targets) matches Some(x) ==> follows(m, x),
{
    reveal(RunModel::hand_effect);
    lemma_exchanged(m, CreateKind::Familiar, 3);
    lemma_exchanged(m, CreateKind::Grim, 2);
    lemma_exchanged(m, CreateKind::Incantation, 4);
    lemma_immolated(m);
}

proof fn lemma_wealth_effect(m: RunModel, key: Seq<char>)
    ensures
        m.wealth_effect(key) matches Some(x) ==> follows(m, x),
{
    broadcast use lemma_consumable_drawn;

    reveal(RunModel::wealth_effect);
}

proof fn lemma_others_removed(m: RunModel, id: u32, n: nat)
    ensures
        follows(m, m.others_removed(id, n)),
    decreases n,
{
    if n > 0 {
        match crate::usage::other_from(m.jokers, id, 0) {
            Some(i) => {
                lemma_without_joker(m, i);
                lemma_others_removed(m.without_joker(i), id, (n - 1) as nat);
            },
            None => {},
        }
    }
}

proof fn lemma_forgotten(m: RunModel, gone: Seq<OwnedJoker>, n: nat)
    ensures
        follows(m, m.forgotten(gone, n)),
    decreases n,
{
    if n > 0 {
        lemma_forgotten(m, gone, (n - 1) as nat);
    }
}

broadcast proof fn lemma_joker_joined(
    m: RunModel,
    rarity: Option<Double>,
    legendary: bool,
    append: &'static str,
)
    ensures
        follows(m, #[trigger] m.joker_joined(rarity, legendary, append)),
{
    let (j, x) = m.joker_made(rarity, legendary, append, JokerArea::Direct);
    lemma_joker_made(m, rarity, legendary, append, JokerArea::Direct);
    lemma_disabling(true);
    lemma_with_joker(x, j, disabling(true));
}

proof fn lemma_ankh_made(m: RunModel)
    ensures
        follows(m, m.ankh_made()),
{
    reveal(RunModel::ankh_made);
    let ids = making::joker_ids(m.jokers);
    let id = making::picked(m.s, "ankh_choice"@, ids);
    let a = m.after("ankh_choice"@);
    match making::found(ids, id) {
        Some(i) => {
            let j = m.jokers[i as int];
            lemma_others_removed(a, id, m.jokers.len());
            let c = a.others_removed(id, m.jokers.len()).copy_drawn(j);
            let copy = OwnedJoker {
                debuffed: false,
                flipped: false,
                ..crate::usage::copied(j, c.next_id())
            };
            lemma_disabling(true);
            lemma_with_joker(c.numbered().using(j.id.row().key@), copy, disabling(true));
        },
        None => {},
    }
}

proof fn lemma_hexed(m: RunModel)
    ensures
        follows(m, m.hexed()),
{
    reveal(RunModel::hexed);
    let id = m.plain_picked("hex"@);
    let x = m.after("hex"@).with_edition(id, Edition::Polychrome);
    let n = x.jokers.len();
    let gone = crate::usage::numbered(x.jokers, id, false, n);
    lemma_forgotten(
        RunModel { jokers: crate::usage::numbered(x.jokers, id, true, n), ..x },
        gone,
        gone.len(),
    );
}

proof fn lemma_joker_effect(m: RunModel, key: Seq<char>)
    ensures
        m.joker_effect(key) matches Some(x) ==> follows(m, x),
{
    broadcast use lemma_joker_joined;

    reveal(RunModel::joker_effect);
    reveal(RunModel::wheel_spun);
    reveal(RunModel::ectoplasm_used);
    lemma_ankh_made(m);
    lemma_hexed(m);
}

proof fn lemma_effect(m: RunModel, key: Seq<char>, targets: Seq<usize>)
    ensures
        m.effect(key, targets) matches Some(x) ==> follows(m, x),
{
    reveal(RunModel::level_effect);
    lemma_target_effect(m, key, targets);
    lemma_hand_effect(m, key, targets);
    lemma_wealth_effect(m, key);
    lemma_joker_effect(m, key);
}

broadcast proof fn lemma_used_up(m: RunModel, key: &'static str, targets: Seq<usize>)
    ensures
        follows(m, (#[trigger] m.used_up(key, targets)).run),
{
    reveal(RunModel::used);
    lemma_effect(m.use_counted(key@), key@, targets);
}

/// Using a consumable keeps a run sound.
pub proof fn law_using_keeps_runs_sound(m: RunModel, idx: usize, targets: Seq<usize>)
    requires
        m.sound(),
    ensures
        m.consumable_used(idx, targets).run.sound(),
{
    reveal(RunModel::consumable_used);
    reveal(RunModel::unusable);
    if idx < m.consumables.len() {
        let c = m.without_consumable(idx as nat);
        assert(follows(m, c));
        lemma_used_up(c, m.consumables[idx as int].key, targets);
    }
}

// ---- the shop ------------------------------------------------------------

broadcast proof fn lemma_stall(m: RunModel, place: nat, enhanced: bool)
    ensures
        follows(m, (#[trigger] m.stall(place, enhanced)).1),
{
    reveal(RunModel::stall_card);
    if place == 0 {
        lemma_joker_made(m, None, false, "sho", JokerArea::Shop);
    }
    lemma_consumable_drawn(m, ConsumableSet::Tarot, "sho", false);
    lemma_consumable_drawn(m, ConsumableSet::Planet, "sho", false);
    lemma_consumable_drawn(m, ConsumableSet::Spectral, "sho", false);
}

broadcast proof fn lemma_slot_rolled(m: RunModel)
    ensures
        follows(m, (#[trigger] m.slot_rolled()).1),
{
    broadcast use lemma_stall;

    reveal(RunModel::slot_rolled);
}

proof fn lemma_slot_filled(m: RunModel)
    ensures
        follows(m, m.slot_filled().1),
{
    broadcast use {lemma_slot_rolled, lemma_joker_made};

    reveal(RunModel::slot_filled);
}

proof fn lemma_stocked(m: RunModel, n: nat)
    ensures
        follows(m, m.stocked(n)),
    decreases n,
{
    if n > 0 {
        lemma_stocked(m, (n - 1) as nat);
        lemma_slot_filled(m.stocked((n - 1) as nat));
    }
}

proof fn lemma_items_finished(m: RunModel, items: Seq<ShopItem>, n: nat)
    ensures
        follows(m, m.items_finished(items, n).1),
    decreases n,
{
    if n > 0 {
        lemma_items_finished(m, items, (n - 1) as nat);
    }
}

broadcast proof fn lemma_shop_finished(m: RunModel, n: nat)
    ensures
        follows(m, #[trigger] m.stocked(n)),
        follows(m, m.stocked(n).shop_finished()),
{
    lemma_stocked(m, n);
    match m.stocked(n).shop {
        Some(shop) => {
            lemma_items_finished(m.stocked(n), shop.jokers, shop.jokers.len());
        },
        None => {},
    }
}

proof fn lemma_shop_laid(m: RunModel)
    requires
        may_select(m),
        m.state == State::Shop,
        m.pack is None,
    ensures
        m.shop_laid().sound(),
        m.shop_laid().state == State::Shop,
{
    broadcast use {lemma_tags_applied, lemma_shop_finished};

    reveal(RunModel::shop_laid);
}

proof fn lemma_cashed_out(m: RunModel)
    requires
        m.sound(),
    ensures
        m.cashed_out().run.sound(),
{
    broadcast use {lemma_tag_drawn, lemma_boss_redrawn};

    reveal(RunModel::cashed_out);
    reveal(RunModel::blinds_renewed);
    assert forall|x: RunModel|
        may_select(x) && x.state == State::Shop && x.pack is None implies (
    #[trigger] x.shop_laid()).sound() by {
        lemma_shop_laid(x);
    }
}

proof fn lemma_items_released(m: RunModel, items: Seq<ShopItem>, n: nat)
    ensures
        follows(m, m.items_released(items, n)),
    decreases n,
{
    if n > 0 {
        lemma_items_released(m, items, (n - 1) as nat);
    }
}

proof fn lemma_vouchers_released(m: RunModel, list: Seq<VoucherOffer>, n: nat)
    ensures
        follows(m, m.vouchers_released(list, n)),
    decreases n,
{
    if n > 0 {
        lemma_vouchers_released(m, list, (n - 1) as nat);
    }
}

proof fn lemma_pack_released(m: RunModel, items: Seq<PackItem>, n: nat)
    ensures
        follows(m, m.pack_released(items, n)),
    decreases n,
{
    if n > 0 {
        lemma_pack_released(m, items, (n - 1) as nat);
    }
}

proof fn lemma_perkeos_done(m: RunModel, n: nat)
    ensures
        follows(m, m.perkeos_done(n)),
    decreases n,
{
    reveal(RunModel::perkeo_copied);
    if n > 0 {
        lemma_perkeos_done(m, (n - 1) as nat);
    }
}

/// Cashing out, rerolling and leaving the shop keep a run sound.
pub proof fn law_shopping_keeps_runs_sound(m: RunModel)
    requires
        m.sound(),
    ensures
        m.cashed_out().run.sound(),
        m.shop_rerolled().run.sound(),
        m.shop_left().run.sound(),
{
    lemma_cashed_out(m);
    assert(m.shop_rerolled().run.sound()) by {
        broadcast use {lemma_reroll_priced, lemma_shop_finished};

        reveal(RunModel::shop_rerolled);
        assert forall|x: RunModel, items: Seq<ShopItem>, n: nat|
            follows(x, #[trigger] x.items_released(items, n)) by {
            lemma_items_released(x, items, n);
        }
    }
    assert(m.shop_left().run.sound()) by {
        reveal(RunModel::shop_left);
        if m.state == State::Shop {
            lemma_perkeos_done(m, m.jokers.len());
            let p = m.perkeos_done(m.jokers.len());
            match p.shop {
                Some(shop) => {
                    let c = RunModel { shop: None, ..p };
                    lemma_items_released(c, shop.jokers, shop.jokers.len());
                    lemma_vouchers_released(
                        c.items_released(shop.jokers, shop.jokers.len()),
                        shop.vouchers,
                        shop.vouchers.len(),
                    );
                },
                None => {},
            }
            lemma_at_blind_select(p.shop_closed());
        }
    }
}

proof fn lemma_item_bought(m: RunModel, slot: usize, and_use: bool, targets: Seq<usize>)
    requires
        m.sound(),
    ensures
        m.item_bought(slot, and_use, targets).run.sound(),
{
    broadcast use {lemma_used_up, lemma_with_joker, lemma_disabling};

    reveal(RunModel::item_bought);
}

proof fn lemma_voucher_applied(m: RunModel, key: Seq<char>)
    requires
        m.state == State::Shop,
        m.track.ante > i64::MIN,
    ensures
        m.voucher_applied(key).state == m.state,
        m.voucher_applied(key).track.won == m.track.won,
        m.voucher_applied(key).track.boss_choice == m.track.boss_choice,
        m.voucher_applied(key).track.ante <= m.track.ante,
        m.track.blind_ante == m.track.ante ==> m.voucher_applied(key).track.blind_ante
            == m.voucher_applied(key).track.ante,
        (m.voucher_applied(key).shop is Some) == (m.shop is Some),
        m.voucher_applied(key).pack == m.pack,
{
    reveal(RunModel::voucher_applied);
    if key == "v_overstock_norm"@ || key == "v_overstock_plus"@ {
        let x = RunModel {
            limits: Limits {
                shop_joker_max: m.limits.shop_joker_max.wrapping_add(1),
                ..m.limits
            },
            ..m
        };
        match x.shop {
            Some(shop) => {
                let n = if x.limits.shop_joker_max > shop.jokers.len() {
                    (x.limits.shop_joker_max - shop.jokers.len()) as nat
                } else {
                    0
                };
                lemma_shop_finished(x, n);
            },
            None => {},
        }
    }
}

proof fn lemma_voucher_redeemed(m: RunModel, slot: usize)
    requires
        m.sound(),
        m.track.ante > i64::MIN,
    ensures
        m.voucher_redeemed(slot).run.sound(),
{
    reveal(RunModel::voucher_redeemed);
    if m.state == State::Shop && slot < m.shop->0.vouchers.len() {
        let shop = m.shop->0;
        let key = shop.vouchers[slot as int].key@;
        let x = RunModel {
            shop: Some(ShopModel { vouchers: shop.vouchers.remove(slot as int), ..shop }),
            offers: Offers { current_voucher: None, ..m.offers },
            ..m
        };
        let y = x.released(key).charged(m.voucher_price(key));
        lemma_voucher_applied(
            RunModel { used_vouchers: y.used_vouchers.insert(key, ()), ..y },
            key,
        );
    }
}

/// Buying and redeeming keep a run sound, as long as the ante does not wrap.
pub proof fn law_buying_keeps_runs_sound(
    m: RunModel,
    slot: usize,
    and_use: bool,
    targets: Seq<usize>,
)
    requires
        m.sound(),
        m.track.ante > i64::MIN,
    ensures
        m.item_bought(slot, and_use, targets).run.sound(),
        m.voucher_redeemed(slot).run.sound(),
        m.pack_bought(slot).run.sound(),
{
    lemma_item_bought(m, slot, and_use, targets);
    lemma_voucher_redeemed(m, slot);
    reveal(RunModel::pack_bought);
    assert forall|x: RunModel, key: Key| x.sound() && x.state == State::Shop implies (
    #[trigger] x.pack_opened(key, PackReturn::Shop)).sound() by {
        lemma_pack_opened(x, key, PackReturn::Shop);
    }
}

/// Selling keeps a run sound.
pub proof fn law_selling_keeps_runs_sound(m: RunModel, idx: usize)
    requires
        m.sound(),
    ensures
        m.joker_sold(idx).run.sound(),
        m.consumable_sold(idx).run.sound(),
{
    broadcast use {lemma_with_joker, lemma_without_joker, lemma_disabled, lemma_disabling};

    reveal(RunModel::joker_sold);
    reveal(RunModel::parted);
    reveal(RunModel::invisible_copied);
    reveal(RunModel::joker_gone);
    reveal(RunModel::consumable_sold);
}

proof fn lemma_pack_finished(m: RunModel)
    requires
        m.sound(),
        m.state == State::PackOpen,
    ensures
        m.pack_finished().sound(),
{
    reveal(RunModel::pack_finished);
    match m.pack {
        Some(pack) => {
            let c = RunModel { pack: None, ..m };
            lemma_pack_released(c, pack.items, pack.items.len());
            let r = c.pack_released(pack.items, pack.items.len());
            let h = if pack.hand_dealt {
                r.hand_returned()
            } else {
                r
            };
            if pack.return_to == PackReturn::BlindSelect {
                lemma_choices_tagged(RunModel { state: State::BlindSelect, ..h });
            }
        },
        None => {},
    }
}

/// Taking cards out of packs and skipping packs keep a run sound.
pub proof fn law_packs_keep_runs_sound(m: RunModel, idx: usize, targets: Seq<usize>)
    requires
        m.sound(),
    ensures
        m.pack_picked(idx, targets).run.sound(),
        m.pack_skipped().run.sound(),
{
    broadcast use {lemma_used_up, lemma_with_joker, lemma_disabling};

    reveal(RunModel::pack_picked);
    reveal(RunModel::pack_skipped);
    assert forall|x: RunModel| x.sound() && x.state == State::PackOpen implies (
    #[trigger] x.pack_finished()).sound() by {
        lemma_pack_finished(x);
    }
}

/// A new run is sound.
pub proof fn law_runs_start_sound(seed: Seq<char>)
    ensures
        course::started(seed).sound(),
{
    broadcast use {lemma_voucher_drawn, lemma_tag_drawn, lemma_marks_reset};

    reveal(course::started);
    let o = course::opening(seed);
    blinds::law_next_boss_is_least_used(
        crate::rng::Streams::start(seed),
        Map::empty(),
        1,
        course::WIN_ANTE,
    );
    let key = o.track.boss_choice;
    let i = choose|i: int|
        0 <= i < 28 && blinds::is_least_used(Map::empty(), 1, course::WIN_ANTE, i) && key == (
        #[trigger] blinds::boss(i)).key;
    blinds::law_bosses_are_found(i as nat, 0);
    assert forall|x: RunModel|
        may_select(x) && x.shop is None && x.pack is None implies (
    #[trigger] x.at_blind_select()).sound() by {
        lemma_at_blind_select(x);
    }
}

} // verus!
