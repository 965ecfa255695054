//! Playing and discarding cards.
use crate::blinds::ActiveBlind;
use crate::cards::{Card, Seal};
use crate::double::Double;
use crate::items::ConsumableSet;
use crate::jokers::engine::Engine;
use crate::jokers::EngineHooks;
use crate::making;
use crate::making::{alter, find_number, numbers_of_cards, pick_number};
use crate::order;
use crate::rng::Streams;
use crate::round;
use crate::run::{Purse, Record, Refusal, Round, Run, RunError, RunModel, State, Turn};
use crate::scoring;
use crate::scoring::{evaluate_play, has_place, JokerHooks, PlayModel, PlayResult, ScoreContext};
use crate::text;
use crate::text::{join2, with_count};
use vstd::prelude::*;

verus! {

// ---- choosing cards ------------------------------------------------------

/// The cards in some places of a hand.
pub open spec fn taken(hand: Seq<Card>, sel: Seq<usize>) -> Seq<Card> {
    scoring::cards_at(hand, sel)
}

/// The cards among the first `n` of a hand that are in none of some places.
pub open spec fn left(hand: Seq<Card>, sel: Seq<usize>, n: nat) -> Seq<Card>
    decreases n,
{
    if n == 0 {
        seq![]
    } else {
        let rest = left(hand, sel, (n - 1) as nat);
        if sel.contains((n - 1) as usize) {
            rest
        } else {
            rest.push(hand[n - 1])
        }
    }
}

impl RunModel {
    /// The place in hand of the card that must be chosen.
    pub open spec fn forced_place(self) -> Option<nat> {
        match self.round.forced_card {
            Some(id) => making::found(making::card_ids(self.hand), id),
            None => None,
        }
    }

    /// The places that a choice of cards stands for, in order; or why it cannot
    /// be made.
    pub open spec fn chosen(self, indices: Seq<usize>) -> Result<Seq<usize>, Refusal> {
        let sel = order::sorted(indices, scoring::place_leq());
        if indices.len() == 0 || indices.len() > 5 {
            Err(
                Refusal::BadCardSelection(
                    "must select 1..=5 cards, got "@ + text::decimal(indices.len() as int),
                ),
            )
        } else if !indices.no_duplicates() {
            Err(Refusal::BadCardSelection("duplicate indices"@))
        } else if sel.last() >= self.hand.len() {
            Err(
                Refusal::BadCardSelection(
                    "index "@ + text::decimal(sel.last() as int) + " out of range (hand size "@
                        + text::decimal(self.hand.len() as int) + ")"@,
                ),
            )
        } else if self.forced_place() matches Some(i) && !sel.contains(i as usize) {
            Err(
                Refusal::BadCardSelection(
                    "forced card (hand index "@ + text::decimal(self.forced_place()->0 as int)
                        + ") must be selected"@,
                ),
            )
        } else {
            Ok(sel)
        }
    }
}

/// Whether no place is named twice.
pub(crate) fn all_distinct(list: &Vec<usize>) -> (r: bool)
    ensures
        r == list@.no_duplicates(),
{
    let mut i: usize = 0;
    while i < list.len()
        invariant
            i <= list.len(),
            forall|a: int, b: int|
                0 <= a < i && a < b < list@.len() ==> #[trigger] list@[a] != #[trigger] list@[b],
        decreases list.len() - i,
    {
        let mut j: usize = i + 1;
        while j < list.len()
            invariant
                i < j <= list.len(),
                forall|b: int| i < b < j ==> list@[i as int] != #[trigger] list@[b],
            decreases list.len() - j,
        {
            if list[i] == list[j] {
                return false;
            }
            j = j + 1;
        }
        i = i + 1;
    }
    true
}

/// Put places in order.
pub(crate) fn sort_places(list: &Vec<usize>) -> (r: Vec<usize>)
    ensures
        r@ == order::sorted(list@, scoring::place_leq()),
        r.len() == list.len(),
        forall|x: usize| r@.contains(x) <==> list@.contains(x),
{
    let le = |a: &usize, b: &usize| -> (c: bool)
        ensures
            c == scoring::place_leq()(*a, *b),
        { *a <= *b };
    proof {
        broadcast use vstd::seq_lib::group_to_multiset_ensures;

        order::lemma_sorted_permutes(list@, scoring::place_leq());
        let sorted = order::sorted(list@, scoring::place_leq());
        assert forall|x: usize| sorted.contains(x) <==> list@.contains(x) by {
            assert(sorted.contains(x) <==> sorted.to_multiset().count(x) > 0);
            assert(list@.contains(x) <==> list@.to_multiset().count(x) > 0);
        }
    }
    order::stable_sort(list, le, Ghost(scoring::place_leq()))
}

impl Run {
    /// The place in hand of the card that must be chosen.
    pub fn forced_card_index(&self) -> (r: Option<usize>)
        ensures
            match r {
                Some(i) => self@.forced_place() == Some(i as nat) && i < self.hand.len(),
                None => self@.forced_place() is None,
            },
    {
        match self.round.forced_card {
            Some(id) => {
                let ids = numbers_of_cards(&self.hand);
                find_number(&ids, id)
            },
            None => None,
        }
    }

    /// The places that a choice of cards stands for, in order.
    fn validate_selection(&self, indices: &Vec<usize>) -> (r: Result<Vec<usize>, RunError>)
        ensures
            match r {
                Ok(sel) => self@.chosen(indices@) == Ok::<Seq<usize>, Refusal>(sel@)
                    && sel.len() <= 5 && (forall|i: int|
                    0 <= i < sel@.len() ==> #[trigger] sel@[i] < self.hand@.len()),
                Err(e) => self@.chosen(indices@) == Err::<Seq<usize>, Refusal>(e@),
            },
    {
        if indices.len() == 0 || indices.len() > 5 {
            return Err(
                RunError::BadCardSelection(
                    with_count("must select 1..=5 cards, got ", indices.len()),
                ),
            );
        }
        let sel = sort_places(indices);
        if !all_distinct(indices) {
            return Err(RunError::BadCardSelection("duplicate indices".to_owned()));
        }
        proof {
            order::lemma_sorted_ascending(indices@, scoring::place_leq());
        }
        let max: usize = sel[sel.len() - 1];
        if max >= self.hand.len() {
            let a = with_count("index ", max);
            let b = join2(a.as_str(), " out of range (hand size ");
            let c = with_count(b.as_str(), self.hand.len());
            return Err(RunError::BadCardSelection(join2(c.as_str(), ")")));
        }
        if let Some(i) = self.forced_card_index() {
            if !has_place(&sel, i) {
                let a = with_count("forced card (hand index ", i);
                return Err(RunError::BadCardSelection(join2(a.as_str(), ") must be selected")));
            }
        }
        assert forall|i: int| 0 <= i < sel@.len() implies #[trigger] sel@[i] < self.hand@.len() by {
            if i < sel@.len() - 1 {
                assert(scoring::place_leq()(sel@[i], sel@[sel@.len() - 1]));
            }
        }
        Ok(sel)
    }

    /// Take the cards in some places out of the hand.
    pub(crate) fn remove_from_hand(&mut self, sel: &Vec<usize>) -> (r: Vec<Card>)
        requires
            forall|i: int| 0 <= i < sel@.len() ==> #[trigger] sel@[i] < old(self).hand@.len(),
        ensures
            r@ == taken(old(self)@.hand, sel@),
            final(self)@ == (RunModel {
                hand: left(old(self)@.hand, sel@, old(self)@.hand.len()),
                ..old(self)@
            }),
    {
        let mut cards: Vec<Card> = Vec::new();
        let mut k: usize = 0;
        while k < sel.len()
            invariant
                k <= sel.len(),
                forall|i: int| 0 <= i < sel@.len() ==> #[trigger] sel@[i] < self.hand@.len(),
                cards@ == taken(self.hand@, sel@).take(k as int),
            decreases sel.len() - k,
        {
            cards.push(self.hand[sel[k]]);
            k = k + 1;
            assert(cards@ =~= taken(self.hand@, sel@).take(k as int));
        }
        assert(cards@ =~= taken(self.hand@, sel@));
        let mut rest: Vec<Card> = Vec::new();
        let mut i: usize = 0;
        while i < self.hand.len()
            invariant
                i <= self.hand.len(),
                rest@ == left(self.hand@, sel@, i as nat),
            decreases self.hand.len() - i,
        {
            if !has_place(sel, i) {
                rest.push(self.hand[i]);
            }
            i = i + 1;
        }
        self.hand = rest;
        cards
    }
}

/// A list of the same places.
pub(crate) fn list_of(s: &[usize]) -> (r: Vec<usize>)
    ensures
        r@ == s@,
{
    let mut v: Vec<usize> = Vec::new();
    let mut i: usize = 0;
    while i < s.len()
        invariant
            i <= s.len(),
            v@ == s@.take(i as int),
        decreases s.len() - i,
    {
        v.push(s[i]);
        i = i + 1;
        assert(v@ =~= s@.take(i as int));
    }
    assert(v@ =~= s@);
    v
}

// ---- discarding ----------------------------------------------------------

/// Cards being discarded.
#[verifier::ext_equal]
pub struct Tossing {
    pub e: Engine,
    pub dollars: i64,
    pub s: Streams,
    /// How many Tarot cards purple seals won.
    pub tarots: nat,
    /// The cards that were destroyed.
    pub gone: Seq<Card>,
    pub pile: Seq<Card>,
}

/// One card is discarded, given how many consumables find room.
pub open spec fn tossed_one(t: Tossing, card: Card, cards: Seq<Card>, room: nat) -> Tossing {
    let (removed, e, dollars, s) = EngineHooks::at_discard(t.e, card, cards, t.dollars, t.s);
    Tossing {
        e,
        dollars,
        s,
        tarots: if card.seal == Seal::Purple && !card.debuff && t.tarots < room {
            t.tarots + 1
        } else {
            t.tarots
        },
        gone: if removed {
            t.gone.push(card)
        } else {
            t.gone
        },
        pile: if removed {
            t.pile
        } else {
            t.pile.push(Card { face_down: false, ..card })
        },
    }
}

/// The first `n` cards are discarded.
pub open spec fn tossed(t: Tossing, cards: Seq<Card>, room: nat, n: nat) -> Tossing
    decreases n,
{
    if n == 0 {
        t
    } else {
        tossed_one(tossed(t, cards, room, (n - 1) as nat), cards[n - 1], cards, room)
    }
}

impl RunModel {
    /// The Tarot cards of purple seals.
    pub open spec fn with_tarots(self, n: nat) -> RunModel
        decreases n,
    {
        if n == 0 {
            self
        } else {
            let m = self.with_tarots((n - 1) as nat);
            let (key, m1) = m.consumable_drawn(ConsumableSet::Tarot, "8ba", false);
            m1.with_consumable(key)
        }
    }

    /// Cards taken out of the hand are discarded: the jokers see them go, one
    /// by one, and may destroy some.
    #[verifier::opaque]
    pub open spec fn discarded(self, cards: Seq<Card>, hook: bool) -> RunModel {
        let (e, hands) = EngineHooks::at_pre_discard(
            self.engine(seq![]),
            cards,
            hook,
            self.record.hands,
            self.mods(),
        );
        let t = tossed(
            Tossing {
                e,
                dollars: self.purse.dollars,
                s: self.s,
                tarots: 0,
                gone: seq![],
                pile: self.discard_pile,
            },
            cards,
            self.consumable_room(),
            cards.len(),
        );
        let e2 = if t.gone.len() > 0 {
            EngineHooks::at_destroyed(t.e, t.gone)
        } else {
            t.e
        };
        (RunModel {
            s: t.s,
            record: Record { hands, ..self.record },
            purse: Purse { dollars: t.dollars, ..self.purse },
            destroyed_cards: self.destroyed_cards + t.gone,
            discard_pile: t.pile,
            ..self
        }).rejoined(e2, round::disabling(true)).with_tarots(t.tarots)
    }
}

impl Run {
    fn add_tarots(&mut self, n: usize)
        ensures
            final(self)@ == old(self)@.with_tarots(n as nat),
    {
        let mut k: usize = 0;
        while k < n
            invariant
                k <= n,
                self@ == old(self)@.with_tarots(k as nat),
            decreases n - k,
        {
            let key = self.create_consumable_key(ConsumableSet::Tarot, "8ba", false);
            self.add_consumable(key);
            k = k + 1;
        }
    }

    fn discard_selected(&mut self, cards: &Vec<Card>, hook: bool)
        ensures
            final(self)@ == old(self)@.discarded(cards@, hook),
    {
        proof {
            reveal(RunModel::discarded);
        }
        let mods = self.live_eval_mods();
        let room: usize = self.consumable_room();
        let none: Vec<Card> = Vec::new();
        assert(none@ =~= seq![]);
        let mut hooks = self.open_window(&none);
        hooks.pre_discard(cards, hook, &mut self.record.hands, &mods);
        let mut tarots: usize = 0;
        let mut gone: Vec<Card> = Vec::new();
        assert(gone@ =~= seq![]);
        let ghost start = Tossing {
            e: hooks@,
            dollars: self.purse.dollars,
            s: self.rng@,
            tarots: 0,
            gone: seq![],
            pile: self.discard_pile@,
        };
        let ghost before = self@;
        let mut i: usize = 0;
        while i < cards.len()
            invariant
                i <= cards.len(),
                tarots <= room,
                (Tossing {
                    e: hooks@,
                    dollars: self.purse.dollars,
                    s: self.rng@,
                    tarots: tarots as nat,
                    gone: gone@,
                    pile: self.discard_pile@,
                }) == tossed(start, cards@, room as nat, i as nat),
                self@ == (RunModel {
                    s: self.rng@,
                    purse: Purse { dollars: self.purse.dollars, ..before.purse },
                    discard_pile: self.discard_pile@,
                    ..before
                }),
            decreases cards.len() - i,
        {
            let card = cards[i];
            if card.seal == Seal::Purple && !card.debuff && tarots < room {
                tarots = tarots + 1;
            }
            let removed = hooks.on_discard_card(
                &card,
                cards,
                &mut self.purse.dollars,
                &mut self.rng,
            );
            if removed {
                gone.push(card);
            } else {
                let mut c = card;
                c.face_down = false;
                self.discard_pile.push(c);
            }
            i = i + 1;
        }
        if gone.len() > 0 {
            hooks.on_cards_destroyed(&gone);
        }
        self.destroyed_cards.append(&mut gone);
        self.rejoin(hooks, true);
        self.add_tarots(tarots);
    }
}

// ---- playing -------------------------------------------------------------

/// The numbers but one, among the first `n`.
pub open spec fn numbers_but(ids: Seq<u32>, x: u32, n: nat) -> Seq<u32>
    decreases n,
{
    if n == 0 {
        seq![]
    } else {
        let rest = numbers_but(ids, x, (n - 1) as nat);
        if ids[n - 1] == x {
            rest
        } else {
            rest.push(ids[n - 1])
        }
    }
}

fn remove_number(ids: &Vec<u32>, x: u32) -> (r: Vec<u32>)
    ensures
        r@ == numbers_but(ids@, x, ids@.len()),
{
    let mut kept: Vec<u32> = Vec::new();
    let mut i: usize = 0;
    while i < ids.len()
        invariant
            i <= ids.len(),
            kept@ == numbers_but(ids@, x, i as nat),
        decreases ids.len() - i,
    {
        if ids[i] != x {
            kept.push(ids[i]);
        }
        i = i + 1;
    }
    kept
}

/// The Hook at work: the cards it may still take, those it took, and the
/// streams.
pub struct Hooking {
    pub ids: Seq<u32>,
    pub took: Seq<u32>,
    pub s: Streams,
}

/// The Hook takes up to `n` cards out of a hand of `size`.
pub open spec fn hooked(h: Hooking, size: nat, n: nat) -> Hooking
    decreases n,
{
    if n == 0 {
        h
    } else {
        let g = hooked(h, size, (n - 1) as nat);
        if size > n - 1 && g.ids.len() > 0 {
            let id = making::picked(g.s, "hook"@, g.ids);
            Hooking {
                ids: numbers_but(g.ids, id, g.ids.len()),
                took: g.took.push(id),
                s: g.s.after("hook"@),
            }
        } else {
            g
        }
    }
}

/// The places among the first `n` of cards with one of some numbers.
pub open spec fn places_of(cards: Seq<Card>, ids: Seq<u32>, n: nat) -> Seq<usize>
    decreases n,
{
    if n == 0 {
        seq![]
    } else {
        let rest = places_of(cards, ids, (n - 1) as nat);
        if ids.contains(cards[n - 1].sort_id) {
            rest.push((n - 1) as usize)
        } else {
            rest
        }
    }
}

fn find_places(cards: &Vec<Card>, ids: &Vec<u32>) -> (r: Vec<usize>)
    ensures
        r@ == places_of(cards@, ids@, cards@.len()),
        forall|i: int| 0 <= i < r@.len() ==> #[trigger] r@[i] < cards@.len(),
{
    let mut list: Vec<usize> = Vec::new();
    let mut i: usize = 0;
    while i < cards.len()
        invariant
            i <= cards.len(),
            list@ == places_of(cards@, ids@, i as nat),
            forall|k: int| 0 <= k < list@.len() ==> #[trigger] list@[k] < cards@.len(),
        decreases cards.len() - i,
    {
        let mut hit = false;
        let mut k: usize = 0;
        while k < ids.len()
            invariant
                k <= ids.len(),
                i < cards.len(),
                hit == ids@.take(k as int).contains(cards@[i as int].sort_id),
            decreases ids.len() - k,
        {
            assert(ids@.take(k as int + 1) =~= ids@.take(k as int).push(ids@[k as int]));
            if ids[k] == cards[i].sort_id {
                hit = true;
                assert(ids@.take(k as int + 1)[k as int] == cards@[i as int].sort_id);
            } else {
                assert(hit ==> ids@.take(k as int + 1).contains(cards@[i as int].sort_id)) by {
                    if hit {
                        let w = choose|w: int|
                            0 <= w < k && ids@.take(k as int)[w] == cards@[i as int].sort_id;
                        assert(ids@.take(k as int + 1)[w] == cards@[i as int].sort_id);
                    }
                }
            }
            k = k + 1;
        }
        assert(ids@.take(k as int) =~= ids@);
        if hit {
            list.push(i);
        }
        i = i + 1;
    }
    list
}

impl RunModel {
    /// The run with its blind changed.
    pub open spec fn with_blind(self, b: ActiveBlind) -> RunModel {
        RunModel { round: Round { active_blind: Some(b), ..self.round }, ..self }
    }

    /// The Hook discards two cards.
    pub open spec fn hook_pulled(self) -> RunModel {
        let h = hooked(
            Hooking { ids: making::card_ids(self.hand), took: seq![], s: self.s },
            self.hand.len(),
            2,
        );
        let m = RunModel { s: h.s, ..self };
        if h.took.len() > 0 {
            let sel = places_of(m.hand, h.took, m.hand.len());
            (RunModel { hand: left(m.hand, sel, m.hand.len()), ..m }).discarded(
                taken(m.hand, sel),
                true,
            )
        } else {
            m
        }
    }

    /// The blind reacts to a number of cards being played.
    #[verifier::opaque]
    pub open spec fn pressed(self, count: nat) -> RunModel {
        match self.round.active_blind {
            None => self,
            Some(b) => if b.disabled {
                self
            } else if b.named("The Hook"@) {
                self.with_blind(ActiveBlind { triggered: true, ..b }).hook_pulled()
            } else if b.named("The Tooth"@) {
                self.with_blind(ActiveBlind { triggered: true, ..b }).charged(count as i64)
            } else if b.named("The Fish"@) || (b.named("Crimson Heart"@) && self.jokers.len() > 0) {
                self.with_blind(ActiveBlind { prepped: true, ..b })
            } else {
                self
            },
        }
    }

    /// What a hand is scored in.
    pub open spec fn score_context(self) -> ScoreContext {
        ScoreContext {
            hands: self.record.hands,
            dollars: self.purse.dollars,
            blind: self.round.active_blind,
            most_played: self.record.most_played_hand,
            mods: self.mods(),
            prob_normal: self.rates.prob_normal,
        }
    }
}

/// Cards as they are laid down.
pub open spec fn laid_down(cards: Seq<Card>) -> Seq<Card> {
    cards.map_values(|c: Card| Card { played_this_ante: true, face_down: false, ..c })
}

/// The played cards among the first `n` that were destroyed, or were not.
pub open spec fn sifted(cards: Seq<Card>, gone: Seq<usize>, destroyed: bool, n: nat) -> Seq<Card>
    decreases n,
{
    if n == 0 {
        seq![]
    } else {
        let rest = sifted(cards, gone, destroyed, (n - 1) as nat);
        if gone.contains((n - 1) as usize) == destroyed {
            rest.push(cards[n - 1])
        } else {
            rest
        }
    }
}

/// What is remembered of a played hand.
pub open spec fn remembered(p: scoring::Played<Engine>, before: i64) -> PlayModel {
    PlayModel {
        hand_type: p.hand_type,
        scoring: p.scoring,
        chips: p.end.chips,
        mult: p.end.mult,
        score: scoring::final_score(p.end.chips, p.end.mult),
        debuffed_hand: p.debuffed,
        destroyed: p.destroyed,
        dollars_delta: p.end.ctx.dollars.wrapping_sub(before),
    }
}

impl RunModel {
    /// The cards laid down are scored.
    #[verifier::opaque]
    pub open spec fn scored(self, cards: Seq<Card>) -> scoring::Played<Engine> {
        scoring::played::<EngineHooks>(
            self.score_context(),
            cards,
            self.hand,
            self.engine(cards),
            self.s,
        )
    }

    /// The run after the cards laid down were scored, and the jokers' work is
    /// done.
    pub open spec fn after_score(self, p: scoring::Played<Engine>) -> RunModel {
        (RunModel {
            s: p.end.s,
            hand: p.end.held,
            record: Record { hands: p.end.ctx.hands, ..self.record },
            purse: Purse { dollars: p.end.ctx.dollars, ..self.purse },
            round: Round { active_blind: p.end.ctx.blind, ..self.round },
            ..self
        }).rejoined(p.end.hooks, round::disabling(true))
    }

    /// The score is added up and the played cards are put away.
    pub open spec fn cleared(self, p: scoring::Played<Engine>, before: i64) -> RunModel {
        let cards = p.end.play;
        RunModel {
            record: Record {
                last_hand_played: Some(p.hand_type),
                hands_played_total: self.record.hands_played_total.wrapping_add(1),
                ..self.record
            },
            round: Round {
                chips: self.round.chips.plus(scoring::final_score(p.end.chips, p.end.mult)),
                hands_played: self.round.hands_played.wrapping_add(1),
                ..self.round
            },
            destroyed_cards: self.destroyed_cards + sifted(cards, p.destroyed, true, cards.len()),
            discard_pile: self.discard_pile + sifted(cards, p.destroyed, false, cards.len()),
            last_play: Some(remembered(p, before)),
            ..self
        }
    }

    /// The run once the cards in some places of the hand are laid down.
    #[verifier::opaque]
    pub open spec fn laid(self, sel: Seq<usize>) -> RunModel {
        (RunModel {
            round: Round {
                forced_card: None,
                hands_left: self.round.hands_left.wrapping_sub(1),
                ..self.round
            },
            hand: left(self.hand, sel, self.hand.len()),
            ..self
        }).pressed(sel.len())
    }

    /// What comes of playing the cards in some places of the hand.
    pub open spec fn hand_result(self, sel: Seq<usize>) -> PlayModel {
        let m = self.laid(sel);
        remembered(m.scored(laid_down(taken(self.hand, sel))), m.purse.dollars)
    }

    /// The run after the cards in some places of the hand were played. The
    /// round ends if enough was scored, or no hand is left.
    #[verifier::opaque]
    pub open spec fn hand_played(self, sel: Seq<usize>) -> RunModel {
        let cards = laid_down(taken(self.hand, sel));
        let m = self.laid(sel);
        let p = m.scored(cards);
        let asked = match p.end.ctx.blind {
            Some(b) => b.chips,
            None => Double::of(0),
        };
        let m1 = m.after_score(p).cleared(p, m.purse.dollars);
        if Double::of(0).at_most(m1.round.chips.minus(asked)) || m1.round.hands_left < 1 {
            m1.ended(round::disabling(true))
        } else {
            m1.hand_drawn()
        }
    }

    /// Playing a choice of cards.
    #[verifier::opaque]
    pub open spec fn play(self, indices: Seq<usize>) -> Turn {
        if self.state != State::SelectingHand {
            Turn::refused(self, Refusal::WrongState)
        } else {
            match self.chosen(indices) {
                Err(why) => Turn::refused(self, why),
                Ok(sel) => Turn::done(self.hand_played(sel)),
            }
        }
    }

    /// Discarding a choice of cards.
    #[verifier::opaque]
    pub open spec fn discard(self, indices: Seq<usize>) -> Turn {
        if self.state != State::SelectingHand {
            Turn::refused(self, Refusal::WrongState)
        } else if self.round.discards_left <= 0 {
            Turn::refused(self, Refusal::NoDiscardsLeft)
        } else {
            match self.chosen(indices) {
                Err(why) => Turn::refused(self, why),
                Ok(sel) => {
                    let m = (RunModel {
                        round: Round { forced_card: None, ..self.round },
                        hand: left(self.hand, sel, self.hand.len()),
                        ..self
                    }).discarded(taken(self.hand, sel), false);
                    Turn::done(
                        (RunModel {
                            round: Round {
                                discards_left: m.round.discards_left.wrapping_sub(1),
                                discards_used: m.round.discards_used.wrapping_add(1),
                                ..m.round
                            },
                            ..m
                        }).hand_drawn(),
                    )
                },
            }
        }
    }
}

impl Run {
    fn pull_hook(&mut self)
        ensures
            final(self)@ == old(self)@.hook_pulled(),
    {
        let mut ids = numbers_of_cards(&self.hand);
        let mut took: Vec<u32> = Vec::new();
        let size: usize = self.hand.len();
        let ghost start = Hooking { ids: ids@, took: seq![], s: self.rng@ };
        let ghost before = self@;
        assert(took@ =~= seq![]);
        let mut i: usize = 0;
        while i < 2
            invariant
                i <= 2,
                self@ == (RunModel { s: self.rng@, ..before }),
                (Hooking { ids: ids@, took: took@, s: self.rng@ }) == hooked(
                    start,
                    size as nat,
                    i as nat,
                ),
            decreases 2 - i,
        {
            if size > i && ids.len() > 0 {
                let id: u32 = pick_number(&mut self.rng, "hook", &ids);
                ids = remove_number(&ids, id);
                took.push(id);
            }
            i = i + 1;
        }
        if took.len() > 0 {
            let sel = find_places(&self.hand, &took);
            let cards = self.remove_from_hand(&sel);
            self.discard_selected(&cards, true);
        }
    }

    fn press_play(&mut self, played_count: usize)
        ensures
            final(self)@ == old(self)@.pressed(played_count as nat),
    {
        proof {
            reveal(RunModel::pressed);
        }
        if let Some(b) = self.round.active_blind {
            if b.disabled {
                return ;
            }
            if b.is("The Hook") {
                self.round.active_blind = Some(ActiveBlind { triggered: true, ..b });
                self.pull_hook();
            } else if b.is("The Tooth") {
                self.round.active_blind = Some(ActiveBlind { triggered: true, ..b });
                self.purse.dollars = self.purse.dollars.wrapping_sub(played_count as i64);
            } else if b.is("The Fish") || (b.is("Crimson Heart") && self.jokers.len() > 0) {
                self.round.active_blind = Some(ActiveBlind { prepped: true, ..b });
            }
        }
    }

    fn put_away(&mut self, cards: &Vec<Card>, gone: &Vec<usize>)
        ensures
            final(self)@ == (RunModel {
                destroyed_cards: old(self)@.destroyed_cards + sifted(
                    cards@,
                    gone@,
                    true,
                    cards@.len(),
                ),
                discard_pile: old(self)@.discard_pile + sifted(cards@, gone@, false, cards@.len()),
                ..old(self)@
            }),
    {
        let ghost before = self@;
        let mut i: usize = 0;
        assert(self.destroyed_cards@ =~= before.destroyed_cards + sifted(cards@, gone@, true, 0));
        assert(self.discard_pile@ =~= before.discard_pile + sifted(cards@, gone@, false, 0));
        while i < cards.len()
            invariant
                i <= cards.len(),
                self@ == (RunModel {
                    destroyed_cards: before.destroyed_cards + sifted(
                        cards@,
                        gone@,
                        true,
                        i as nat,
                    ),
                    discard_pile: before.discard_pile + sifted(cards@, gone@, false, i as nat),
                    ..before
                }),
            decreases cards.len() - i,
        {
            if has_place(gone, i) {
                self.destroyed_cards.push(cards[i]);
            } else {
                self.discard_pile.push(cards[i]);
            }
            i = i + 1;
            assert(self.destroyed_cards@ =~= before.destroyed_cards + sifted(
                cards@,
                gone@,
                true,
                i as nat,
            ));
            assert(self.discard_pile@ =~= before.discard_pile + sifted(
                cards@,
                gone@,
                false,
                i as nat,
            ));
        }
    }
}

fn lay_down(cards: &mut Vec<Card>)
    ensures
        final(cards)@ == laid_down(old(cards)@),
{
    let ghost g = |c: Card| Card { played_this_ante: true, face_down: false, ..c };
    let f = |c: Card| -> (r: Card)
        ensures
            r == (Card { played_this_ante: true, face_down: false, ..c }),
        { Card { played_this_ante: true, face_down: false, ..c } };
    alter(cards, f, Ghost(g));
}

fn copy_result(p: &PlayResult) -> (r: PlayResult)
    ensures
        r@ == p@,
{
    PlayResult {
        hand_type: p.hand_type,
        scoring: list_of(p.scoring.as_slice()),
        chips: p.chips,
        mult: p.mult,
        score: p.score,
        debuffed_hand: p.debuffed_hand,
        destroyed: list_of(p.destroyed.as_slice()),
        dollars_delta: p.dollars_delta,
    }
}

impl Run {
    /// Score the cards laid down, and let the jokers' work be done.
    fn score_hand(&mut self, cards: &mut Vec<Card>) -> (r: (PlayResult, Double))
        ensures
            ({
                let p = old(self)@.scored(old(cards)@);
                &&& r.0@ == remembered(p, old(self)@.purse.dollars)
                &&& r.1 == match p.end.ctx.blind {
                    Some(b) => b.chips,
                    None => Double::of(0),
                }
                &&& final(cards)@ == p.end.play
                &&& final(self)@ == old(self)@.after_score(p)
            }),
    {
        proof {
            reveal(RunModel::scored);
        }
        let mut ctx = ScoreContext {
            hands: self.record.hands,
            dollars: self.purse.dollars,
            blind: self.round.active_blind,
            most_played: self.record.most_played_hand,
            mods: self.live_eval_mods(),
            prob_normal: self.rates.prob_normal,
        };
        let mut hooks = self.open_window(cards);
        let result = evaluate_play(&mut ctx, cards, &mut self.hand, &mut self.rng, &mut hooks);
        self.record.hands = ctx.hands;
        self.purse.dollars = ctx.dollars;
        self.round.active_blind = ctx.blind;
        let asked = self.blind_chips();
        self.rejoin(hooks, true);
        (result, asked)
    }

    fn play_hand(&mut self, sel: &Vec<usize>) -> (r: PlayResult)
        requires
            forall|i: int| 0 <= i < sel@.len() ==> #[trigger] sel@[i] < old(self).hand@.len(),
        ensures
            final(self)@ == old(self)@.hand_played(sel@),
            r@ == old(self)@.hand_result(sel@),
    {
        proof {
            reveal(RunModel::hand_played);
            reveal(RunModel::laid);
        }
        self.round.forced_card = None;
        self.round.hands_left = self.round.hands_left.wrapping_sub(1);
        let mut cards = self.remove_from_hand(sel);
        lay_down(&mut cards);
        self.press_play(cards.len());
        let (result, asked) = self.score_hand(&mut cards);
        self.record.last_hand_played = Some(result.hand_type);
        self.round.chips = self.round.chips.add(result.score);
        self.put_away(&cards, &result.destroyed);
        self.round.hands_played = self.round.hands_played.wrapping_add(1);
        self.record.hands_played_total = self.record.hands_played_total.wrapping_add(1);
        let copy = copy_result(&result);
        self.last_play = Some(result);
        if Double::from_i64(0).le(self.round.chips.sub(asked)) || self.round.hands_left < 1 {
            self.end_round_within(true);
        } else {
            self.draw_to_hand();
        }
        copy
    }

    /// Play the cards in one to five places of the hand; what came of it is
    /// also remembered.
    pub fn play(&mut self, indices: &[usize]) -> (r: Result<PlayResult, RunError>)
        ensures
            final(self)@ == old(self)@.play(indices@).run,
            match r {
                Ok(p) => old(self)@.play(indices@).refusal is None && p@
                    == old(self)@.hand_result(old(self)@.chosen(indices@)->Ok_0),
                Err(e) => old(self)@.play(indices@).refusal == Some(e@),
            },
    {
        proof {
            reveal(RunModel::play);
        }
        if self.state != State::SelectingHand {
            return Err(RunError::WrongState);
        }
        let list = list_of(indices);
        match self.validate_selection(&list) {
            Err(e) => Err(e),
            Ok(sel) => Ok(self.play_hand(&sel)),
        }
    }

    /// Discard the cards in one to five places of the hand, and draw.
    pub fn discard(&mut self, indices: &[usize]) -> (r: Result<(), RunError>)
        ensures
            final(self)@ == old(self)@.discard(indices@).run,
            old(self)@.discard(indices@).tells(r),
    {
        proof {
            reveal(RunModel::discard);
        }
        if self.state != State::SelectingHand {
            return Err(RunError::WrongState);
        }
        if self.round.discards_left <= 0 {
            return Err(RunError::NoDiscardsLeft);
        }
        let list = list_of(indices);
        match self.validate_selection(&list) {
            Err(e) => Err(e),
            Ok(sel) => {
                self.round.forced_card = None;
                let cards = self.remove_from_hand(&sel);
                self.discard_selected(&cards, false);
                self.round.discards_left = self.round.discards_left.wrapping_sub(1);
                self.round.discards_used = self.round.discards_used.wrapping_add(1);
                self.draw_to_hand();
                Ok(())
            },
        }
    }
}

// ---- laws ----------------------------------------------------------------

/// Of the cards that are discarded none is lost and none comes twice: each
/// goes onto the pile or is destroyed.
pub proof fn law_discarded_cards_are_kept(t: Tossing, cards: Seq<Card>, room: nat, n: nat)
    requires
        n <= cards.len(),
    ensures
        making::card_ids(tossed(t, cards, room, n).pile).to_multiset().add(
            making::card_ids(tossed(t, cards, room, n).gone).to_multiset(),
        ) == making::card_ids(t.pile).to_multiset().add(
            making::card_ids(t.gone).to_multiset(),
        ).add(making::card_ids(cards.take(n as int)).to_multiset()),
    decreases n,
{
    broadcast use vstd::seq_lib::group_to_multiset_ensures;

    let ids = |s: Seq<Card>| making::card_ids(s).to_multiset();
    let u = tossed(t, cards, room, n);
    if n == 0 {
        assert(making::card_ids(cards.take(0)) =~= Seq::<u32>::empty());
        assert(ids(u.pile).add(ids(u.gone)) =~= ids(t.pile).add(ids(t.gone)).add(ids(cards.take(0))));
    } else {
        law_discarded_cards_are_kept(t, cards, room, (n - 1) as nat);
        let v = tossed(t, cards, room, (n - 1) as nat);
        let card = cards[n - 1];
        assert(making::card_ids(cards.take(n as int)) =~= making::card_ids(cards.take(n - 1)).push(
            card.sort_id,
        ));
        assert(making::card_ids(v.gone.push(card)) =~= making::card_ids(v.gone).push(card.sort_id));
        let laid = Card { face_down: false, ..card };
        assert(making::card_ids(v.pile.push(laid)) =~= making::card_ids(v.pile).push(card.sort_id));
        assert(ids(u.pile).add(ids(u.gone)) =~= ids(v.pile).add(ids(v.gone)).insert(card.sort_id));
        assert(ids(u.pile).add(ids(u.gone)) =~= ids(t.pile).add(ids(t.gone)).add(
            ids(cards.take(n as int)),
        ));
    }
}

} // verus!
