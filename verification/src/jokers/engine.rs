//! The jokers of a run at work.
use crate::cards::{Card, Edition, Enhancement, HandType};
use crate::double::Double;
use crate::handeval;
use crate::handeval::EvalMods;
use crate::items;
use crate::items::{ConsumableSet, JokerId};
use crate::order;
use crate::registry::Key;
use crate::rng::{RngState, Streams};
use crate::scoring::{
    BeforeCtx, BeforeOutcome, CardEffect, HandCtx, HandView, HandsTable, JokerHooks, MainOutcome,
};
use crate::shop::OwnedJoker;
use super::{
    effects, find_joker, owns, resolve_effective, resolved, JokerEnv, JokerOutbox, OutEvent, Outbox,
};
use vstd::prelude::*;

verus! {

/// Jokers at work: the jokers, what they see, the consumables held beside them,
/// and what they left to be done.
#[verifier::ext_equal]
pub struct Engine {
    pub jokers: Seq<OwnedJoker>,
    pub env: JokerEnv,
    pub keys: Seq<Key>,
    pub out: Outbox,
}

/// The jokers of a run in one of its windows.
#[derive(Debug)]
pub struct EngineHooks {
    pub jokers: Vec<OwnedJoker>,
    pub env: JokerEnv,
    /// The consumables held.
    pub consumable_keys: Vec<Key>,
    pub out: JokerOutbox,
}

impl View for EngineHooks {
    type V = Engine;

    open spec fn view(&self) -> Engine {
        Engine {
            jokers: self.jokers@,
            env: self.env,
            keys: self.consumable_keys@,
            out: self.out@,
        }
    }
}

impl Engine {
    /// The engine with another joker in place `t`.
    pub open spec fn with(self, t: usize, j: OwnedJoker) -> Engine {
        Engine { jokers: self.jokers.update(t as int, j), ..self }
    }

    /// The engine with one more event.
    pub open spec fn and(self, e: OutEvent) -> Engine {
        Engine { out: self.out.and(e), ..self }
    }

    pub open spec fn acting(self, i: nat) -> Option<(usize, bool)> {
        resolved(self.jokers, i as usize)
    }

    /// The joker in place `i` sees playing cards added: Hologram grows.
    pub open spec fn added_step(self, count: nat, i: nat) -> Engine {
        match self.acting(i) {
            Some((t, bp)) => if self.jokers[t as int].id == JokerId::Hologram && !bp {
                self.with(
                    t,
                    self.jokers[t as int].gain_x(
                        Double::frac(25, 100).times(Double::of(count as int)),
                    ),
                )
            } else {
                self
            },
            None => self,
        }
    }

    /// The jokers in places `i` to `n` see playing cards added.
    pub open spec fn added_from(self, count: nat, i: nat, n: nat) -> Engine
        decreases n - i,
    {
        if i >= n {
            self
        } else {
            self.added_step(count, i).added_from(count, i + 1, n)
        }
    }

    /// The jokers see playing cards added.
    pub open spec fn added(self, count: nat) -> Engine {
        self.added_from(count, 0, self.jokers.len())
    }
}

impl EngineHooks {
    pub fn new(jokers: Vec<OwnedJoker>, env: JokerEnv, consumable_keys: Vec<Key>) -> (r: Self)
        ensures
            r@ == (Engine {
                jokers: jokers@,
                env,
                keys: consumable_keys@,
                out: Outbox::empty(),
            }),
    {
        EngineHooks { jokers, env, consumable_keys, out: JokerOutbox::default() }
    }

    fn pareidolia(&self) -> (r: bool)
        ensures
            r == owns(self.jokers@, JokerId::Pareidolia),
    {
        find_joker(&self.jokers, JokerId::Pareidolia)
    }

    fn smeared(&self) -> (r: bool)
        ensures
            r == owns(self.jokers@, JokerId::Smeared),
    {
        find_joker(&self.jokers, JokerId::Smeared)
    }

    /// Tell the jokers that playing cards were added.
    pub fn playing_cards_added(&mut self, count: usize)
        ensures
            final(self)@ == old(self)@.added(count as nat),
            final(self).jokers.len() == old(self).jokers.len(),
    {
        let n: usize = self.jokers.len();
        let mut i: usize = 0;
        while i < n
            invariant
                i <= n,
                n == self.jokers.len(),
                self@.added_from(count as nat, i as nat, n as nat) == old(self)@.added_from(
                    count as nat,
                    0,
                    n as nat,
                ),
            decreases n - i,
        {
            let ghost before = self@;
            if let Some((t, bp)) = resolve_effective(&self.jokers, i) {
                let mut j = self.jokers[t];
                if j.id == JokerId::Hologram && !bp {
                    j.state.x_mult = j.state.x_mult.add(
                        Double::lit(25, 100).mul(Double::from_u64(count as u64)),
                    );
                    self.jokers.set(t, j);
                }
            }
            assert(self@ =~= before.added_step(count as nat, i as nat));
            i = i + 1;
        }
    }
}

/// A blind being set: the jokers, which of them are marked to be destroyed, and
/// the streams.
#[verifier::ext_equal]
pub struct Setting {
    pub e: Engine,
    pub sliced: Seq<u32>,
    pub s: Streams,
}

/// The jokers among the first `n` that Madness may destroy.
pub open spec fn prey(jokers: Seq<OwnedJoker>, me: u32, sliced: Seq<u32>, n: nat) -> Seq<u32>
    decreases n,
{
    if n == 0 {
        seq![]
    } else {
        let j = jokers[n - 1];
        let rest = prey(jokers, me, sliced, (n - 1) as nat);
        if j.sort_id != me && !j.eternal && !sliced.contains(j.sort_id) {
            rest.push(j.sort_id)
        } else {
            rest
        }
    }
}

/// What a joker would sell for.
pub open spec fn worth(j: OwnedJoker, env: JokerEnv) -> i64 {
    items::resale(j.id.row().cost, j.edition, env.discount_percent, j.extra_value)
}

fn joker_worth(j: &OwnedJoker, env: &JokerEnv) -> (r: i64)
    ensures
        r == worth(*j, *env),
{
    items::sell_cost(j.id.meta().cost, j.edition, env.discount_percent, j.extra_value)
}

impl Setting {
    /// Madness grows and picks a joker to destroy.
    pub open spec fn madness(self, t: usize, root_sliced: bool) -> Setting {
        let j = self.e.jokers[t as int].gain_x(Double::frac(5, 10));
        let e = self.e.with(t, j);
        let all = prey(e.jokers, j.sort_id, self.sliced, e.jokers.len());
        if all.len() == 0 {
            Setting { e, ..self }
        } else {
            let pick = order::sorted(all, order::number_leq())[self.s.place(
                "madness"@,
                all.len(),
            ) as int];
            let s = self.s.after("madness"@);
            if root_sliced {
                Setting { e, s, ..self }
            } else {
                Setting {
                    e: e.and(OutEvent::DestroyJoker(pick)),
                    sliced: self.sliced.push(pick),
                    s,
                }
            }
        }
    }

    /// The Ceremonial Dagger destroys the joker to its right.
    pub open spec fn ceremony(self, t: usize) -> Setting {
        if t + 1 < self.e.jokers.len() {
            let victim = self.e.jokers[t + 1];
            if !victim.eternal && !self.sliced.contains(victim.sort_id) {
                let j = self.e.jokers[t as int];
                let fed = j.with_mult(
                    j.state.mult.plus(
                        Double::of(2).times(Double::of(worth(victim, self.e.env) as int)),
                    ),
                );
                let e = self.e.with(t, fed);
                let out = Outbox { joker_buffer: e.out.joker_buffer.wrapping_sub(1), ..e.out };
                Setting {
                    e: Engine { out: out.and(OutEvent::DestroyJoker(victim.sort_id)), ..e },
                    sliced: self.sliced.push(victim.sort_id),
                    ..self
                }
            } else {
                self
            }
        } else {
            self
        }
    }

    /// How many more jokers find room, those on their way counted.
    pub open spec fn joker_room(self) -> i64 {
        (self.e.env.joker_slots as i64).wrapping_sub(
            (self.e.jokers.len() as i64).wrapping_add(self.e.out.joker_buffer),
        )
    }

    /// Riff-Raff orders up to two jokers.
    pub open spec fn riff_raff(self) -> Setting {
        let room = self.joker_room();
        let count = (if room < 2 {
            room
        } else {
            2
        }) as usize;
        let out = Outbox {
            joker_buffer: self.e.out.joker_buffer.wrapping_add(count as i64),
            ..self.e.out
        };
        Setting { e: Engine { out: out.and(OutEvent::CreateJokers(count)), ..self.e }, ..self }
    }

    /// Whether Riff-Raff finds room.
    pub open spec fn has_joker_room(self) -> bool {
        (self.e.jokers.len() as i64).wrapping_add(self.e.out.joker_buffer)
            < self.e.env.joker_slots as i64
    }

    /// The joker in place `i` sees a blind being set.
    pub open spec fn step(self, i: nat) -> Setting {
        match self.e.acting(i) {
            None => self,
            Some((t, bp)) => {
                let j = self.e.jokers[t as int];
                let boss = self.e.env.blind_is_boss;
                let root_sliced = self.sliced.contains(self.e.jokers[i as int].sort_id);
                if self.sliced.contains(j.sort_id) {
                    self
                } else if j.id == JokerId::Chicot && !bp && boss {
                    Setting { e: self.e.and(OutEvent::DisableBoss), ..self }
                } else if j.id == JokerId::Madness && !bp && !boss {
                    self.madness(t, root_sliced)
                } else if j.id == JokerId::Burglar && !root_sliced {
                    Setting { e: self.e.and(OutEvent::Burglar), ..self }
                } else if j.id == JokerId::RiffRaff && !root_sliced && self.has_joker_room() {
                    self.riff_raff()
                } else if j.id == JokerId::Cartomancer && !root_sliced && self.e.out.has_room(
                    self.e.env,
                ) {
                    Setting {
                        e: self.e.and(OutEvent::CreateConsumable(ConsumableSet::Tarot, "car")),
                        ..self
                    }
                } else if j.id == JokerId::Ceremonial && !bp {
                    self.ceremony(t)
                } else if j.id == JokerId::Marble && !root_sliced {
                    Setting { e: self.e.and(OutEvent::CreateMarbleStone).added(1), ..self }
                } else {
                    self
                }
            },
        }
    }

    /// The jokers in places `i` to `n` see a blind being set.
    pub open spec fn from(self, i: nat, n: nat) -> Setting
        decreases n - i,
    {
        if i >= n {
            self
        } else {
            self.step(i).from(i + 1, n)
        }
    }
}

fn has_number(list: &Vec<u32>, x: u32) -> (r: bool)
    ensures
        r == list@.contains(x),
{
    let mut i: usize = 0;
    while i < list.len()
        invariant
            i <= list.len(),
            forall|k: int| 0 <= k < i ==> #[trigger] list@[k] != x,
        decreases list.len() - i,
    {
        if list[i] == x {
            return true;
        }
        i = i + 1;
    }
    false
}

impl EngineHooks {
    fn prey(&self, me: u32, sliced: &Vec<u32>) -> (r: Vec<u32>)
        ensures
            r@ == prey(self.jokers@, me, sliced@, self.jokers@.len()),
    {
        let mut all: Vec<u32> = Vec::new();
        let mut i: usize = 0;
        while i < self.jokers.len()
            invariant
                i <= self.jokers.len(),
                all@ == prey(self.jokers@, me, sliced@, i as nat),
            decreases self.jokers.len() - i,
        {
            let j = self.jokers[i];
            if j.sort_id != me && !j.eternal && !has_number(sliced, j.sort_id) {
                all.push(j.sort_id);
            }
            i = i + 1;
        }
        all
    }

    fn set_madness(&mut self, t: usize, root_sliced: bool, sliced: &mut Vec<u32>, rng: &mut RngState)
        requires
            t < old(self).jokers.len(),
        ensures
            (Setting { e: final(self)@, sliced: final(sliced)@, s: final(rng)@ }) == (Setting {
                e: old(self)@,
                sliced: old(sliced)@,
                s: old(rng)@,
            }).madness(t, root_sliced),
            final(self).jokers.len() == old(self).jokers.len(),
    {
        let ghost st = Setting { e: self@, sliced: sliced@, s: rng@ };
        let mut j = self.jokers[t];
        j.state.x_mult = j.state.x_mult.add(Double::lit(5, 10));
        self.jokers.set(t, j);
        let all = self.prey(j.sort_id, sliced);
        assert(self@ =~= st.e.with(t, st.e.jokers[t as int].gain_x(Double::frac(5, 10))));
        if all.len() > 0 {
            let sorted = order::sort_numbers(&all);
            let place: usize = rng.random_place("madness", all.len());
            let pick: u32 = sorted[place];
            if !root_sliced {
                sliced.push(pick);
                self.out.push(OutEvent::DestroyJoker(pick));
            }
        }
        assert((Setting { e: self@, sliced: sliced@, s: rng@ }) =~= st.madness(t, root_sliced));
    }

    fn set_ceremony(&mut self, t: usize, sliced: &mut Vec<u32>)
        requires
            t < old(self).jokers.len(),
        ensures
            forall|s: Streams|
                (Setting { e: final(self)@, sliced: final(sliced)@, s }) == #[trigger] (Setting {
                    e: old(self)@,
                    sliced: old(sliced)@,
                    s,
                }).ceremony(t),
            final(self).jokers.len() == old(self).jokers.len(),
    {
        if t < self.jokers.len() - 1 {
            let victim = self.jokers[t + 1];
            if !victim.eternal && !has_number(sliced, victim.sort_id) {
                sliced.push(victim.sort_id);
                self.out.joker_buffer = self.out.joker_buffer.wrapping_sub(1);
                let sc: i64 = joker_worth(&victim, &self.env);
                let mut j = self.jokers[t];
                j.state.mult = j.state.mult.add(Double::from_i64(2).mul(Double::from_i64(sc)));
                self.jokers.set(t, j);
                self.out.push(OutEvent::DestroyJoker(victim.sort_id));
            }
        }
        proof {
            assert forall|s: Streams|
                (Setting { e: self@, sliced: sliced@, s }) == #[trigger] (Setting {
                    e: old(self)@,
                    sliced: old(sliced)@,
                    s,
                }).ceremony(t) by {
                assert((Setting { e: self@, sliced: sliced@, s }) =~= (Setting {
                    e: old(self)@,
                    sliced: old(sliced)@,
                    s,
                }).ceremony(t));
            }
        }
    }

    fn set_step(&mut self, i: usize, sliced: &mut Vec<u32>, rng: &mut RngState)
        requires
            i < old(self).jokers.len(),
        ensures
            (Setting { e: final(self)@, sliced: final(sliced)@, s: final(rng)@ }) == (Setting {
                e: old(self)@,
                sliced: old(sliced)@,
                s: old(rng)@,
            }).step(i as nat),
            final(self).jokers.len() == old(self).jokers.len(),
    {
        let ghost st = Setting { e: self@, sliced: sliced@, s: rng@ };
        let (t, bp) = match resolve_effective(&self.jokers, i) {
            Some(r) => r,
            None => {
                return ;
            },
        };
        let j = self.jokers[t];
        if has_number(sliced, j.sort_id) {
            return ;
        }
        let root_sliced = has_number(sliced, self.jokers[i].sort_id);
        let boss = self.env.blind_is_boss;
        let slots: i64 = self.env.joker_slots as i64;
        let crowd: i64 = (self.jokers.len() as i64).wrapping_add(self.out.joker_buffer);
        let room_left = crowd < slots;
        if j.id == JokerId::Chicot && !bp && boss {
            self.out.push(OutEvent::DisableBoss);
        } else if j.id == JokerId::Madness && !bp && !boss {
            self.set_madness(t, root_sliced, sliced, rng);
        } else if j.id == JokerId::Burglar && !root_sliced {
            self.out.push(OutEvent::Burglar);
        } else if j.id == JokerId::RiffRaff && !root_sliced && room_left {
            let room: i64 = slots.wrapping_sub(crowd);
            let count: usize = (if room < 2 {
                room
            } else {
                2
            }) as usize;
            self.out.joker_buffer = self.out.joker_buffer.wrapping_add(count as i64);
            self.out.push(OutEvent::CreateJokers(count));
        } else if j.id == JokerId::Cartomancer && !root_sliced && self.out.has_room(&self.env) {
            self.out.push(OutEvent::CreateConsumable(ConsumableSet::Tarot, "car"));
        } else if j.id == JokerId::Ceremonial && !bp {
            self.set_ceremony(t, sliced);
        } else if j.id == JokerId::Marble && !root_sliced {
            self.out.push(OutEvent::CreateMarbleStone);
            assert(self@ =~= st.e.and(OutEvent::CreateMarbleStone));
            self.playing_cards_added(1);
        }
        assert((Setting { e: self@, sliced: sliced@, s: rng@ }) =~= st.step(i as nat));
    }

    fn set_all(&mut self, rng: &mut RngState)
        ensures
            ({
                let st = (Setting { e: old(self)@, sliced: seq![], s: old(rng)@ }).from(
                    0,
                    old(self)@.jokers.len(),
                );
                final(self)@ == st.e && final(rng)@ == st.s
            }),
    {
        let mut sliced: Vec<u32> = Vec::new();
        let n: usize = self.jokers.len();
        let mut i: usize = 0;
        assert(sliced@ =~= seq![]);
        while i < n
            invariant
                i <= n,
                n == self.jokers.len(),
                (Setting { e: self@, sliced: sliced@, s: rng@ }).from(i as nat, n as nat) == (
                Setting { e: old(self)@, sliced: seq![], s: old(rng)@ }).from(0, n as nat),
            decreases n - i,
        {
            self.set_step(i, &mut sliced, rng);
            i = i + 1;
        }
    }
}

/// The first hand of a round being drawn: each Certificate orders a card.
impl Engine {
    pub open spec fn first_hand_step(self, i: nat) -> Engine {
        match self.acting(i) {
            Some((t, _)) => if self.jokers[t as int].id == JokerId::Certificate {
                self.and(OutEvent::CreateCertificate).added(1)
            } else {
                self
            },
            None => self,
        }
    }

    pub open spec fn first_hand_from(self, i: nat, n: nat) -> Engine
        decreases n - i,
    {
        if i >= n {
            self
        } else {
            self.first_hand_step(i).first_hand_from(i + 1, n)
        }
    }
}

/// A hand as it stands before it is scored.
pub open spec fn standing(v: HandView, o: BeforeOutcome<Engine>) -> HandView {
    HandView { full_hand: o.full_hand, held: o.held, ..v }
}

/// DNA puts a copy of the first played card into the hand.
pub open spec fn copied_card(o: BeforeOutcome<Engine>) -> BeforeOutcome<Engine> {
    let used = o.hooks.out.sort_ids_used.saturating_add(1);
    let out = Outbox {
        sort_ids_used: used,
        playing_cards_delta: o.hooks.out.playing_cards_delta.wrapping_add(1),
        ..o.hooks.out
    };
    let copy = Card { sort_id: o.hooks.env.sort_id_base.saturating_add(used), ..o.full_hand[0] };
    BeforeOutcome { hooks: Engine { out, ..o.hooks }.added(1), held: o.held.push(copy), ..o }
}

/// The joker in place `i` sees a hand before it is scored.
pub open spec fn before_one(v: HandView, o: BeforeOutcome<Engine>, i: nat) -> BeforeOutcome<
    Engine,
> {
    match o.hooks.acting(i) {
        None => o,
        Some((t, bp)) => {
            let step = effects::before_step(
                o.hooks.jokers[t as int],
                bp,
                standing(v, o),
                owns(o.hooks.jokers, JokerId::Pareidolia),
                o.hands,
                o.hooks.env,
                o.hooks.out,
                o.dollars,
                o.s,
            );
            let o2 = BeforeOutcome {
                hooks: Engine { out: step.out, ..o.hooks.with(t, step.j) },
                full_hand: step.full_hand,
                held: o.held,
                hands: if step.level_up {
                    o.hands.leveled_up(v.hand_type, 1)
                } else {
                    o.hands
                },
                dollars: step.dollars,
                s: step.s,
            };
            if step.dna_copy {
                copied_card(o2)
            } else {
                o2
            }
        },
    }
}

/// The jokers in places `i` to `n` see a hand before it is scored.
pub open spec fn before_from(v: HandView, o: BeforeOutcome<Engine>, i: nat, n: nat) -> BeforeOutcome<
    Engine,
>
    decreases n - i,
{
    if i >= n {
        o
    } else {
        before_from(v, before_one(v, o, i), i + 1, n)
    }
}

impl EngineHooks {
    fn first_hand_all(&mut self)
        ensures
            final(self)@ == old(self)@.first_hand_from(0, old(self)@.jokers.len()),
    {
        let n: usize = self.jokers.len();
        let mut i: usize = 0;
        while i < n
            invariant
                i <= n,
                n == self.jokers.len(),
                self@.first_hand_from(i as nat, n as nat) == old(self)@.first_hand_from(
                    0,
                    n as nat,
                ),
            decreases n - i,
        {
            let ghost before = self@;
            if let Some((t, _bp)) = resolve_effective(&self.jokers, i) {
                if self.jokers[t].id == JokerId::Certificate {
                    self.out.push(OutEvent::CreateCertificate);
                    assert(self@ =~= before.and(OutEvent::CreateCertificate));
                    self.playing_cards_added(1);
                }
            }
            assert(self@ =~= before.first_hand_step(i as nat));
            i = i + 1;
        }
    }

    /// The state of the window before a hand is scored.
    spec fn outcome(self, ctx: BeforeCtx, hands: HandsTable, dollars: i64, s: Streams) -> BeforeOutcome<
        Engine,
    > {
        BeforeOutcome {
            hooks: self@,
            full_hand: ctx.full_hand@,
            held: ctx.held@,
            hands,
            dollars,
            s,
        }
    }

    fn copy_first(&mut self, ctx: &mut BeforeCtx)
        requires
            old(ctx).full_hand@.len() > 0,
        ensures
            forall|hands: HandsTable, dollars: i64, s: Streams| #[trigger]
                final(self).outcome(*final(ctx), hands, dollars, s) == copied_card(
                    old(self).outcome(*old(ctx), hands, dollars, s),
                ),
            final(self).jokers.len() == old(self).jokers.len(),
            final(ctx).full_hand == old(ctx).full_hand,
            final(ctx).scoring == old(ctx).scoring,
            final(ctx).hand_type == old(ctx).hand_type,
            final(ctx).poker_hands == old(ctx).poker_hands,
    {
        let mut copy = ctx.full_hand[0];
        self.out.sort_ids_used = self.out.sort_ids_used.saturating_add(1);
        copy.sort_id = self.env.sort_id_base.saturating_add(self.out.sort_ids_used);
        self.out.playing_cards_delta = self.out.playing_cards_delta.wrapping_add(1);
        ctx.held.push(copy);
        assert(self@ =~= Engine {
            out: Outbox {
                sort_ids_used: old(self)@.out.sort_ids_used.saturating_add(1),
                playing_cards_delta: old(self)@.out.playing_cards_delta.wrapping_add(1),
                ..old(self)@.out
            },
            ..old(self)@
        });
        self.playing_cards_added(1);
    }

    fn before_step(
        &mut self,
        i: usize,
        ctx: &mut BeforeCtx,
        hands: &mut HandsTable,
        dollars: &mut i64,
        rng: &mut RngState,
    )
        requires
            i < old(self).jokers.len(),
            old(ctx)@.valid(),
        ensures
            final(self).outcome(*final(ctx), *final(hands), *final(dollars), final(rng)@)
                == before_one(
                old(ctx)@,
                old(self).outcome(*old(ctx), *old(hands), *old(dollars), old(rng)@),
                i as nat,
            ),
            final(self).jokers.len() == old(self).jokers.len(),
            final(ctx).full_hand@.len() == old(ctx).full_hand@.len(),
            final(ctx).scoring == old(ctx).scoring,
            final(ctx).hand_type == old(ctx).hand_type,
            final(ctx).poker_hands == old(ctx).poker_hands,
    {
        let ghost o = self.outcome(*ctx, *hands, *dollars, rng@);
        let ghost v = ctx@;
        let pareidolia = self.pareidolia();
        let (t, bp) = match resolve_effective(&self.jokers, i) {
            Some(r) => r,
            None => {
                return ;
            },
        };
        let mut j = self.jokers[t];
        assert(standing(v, o) == v);
        let res = effects::before_hand(
            &mut j,
            bp,
            ctx,
            pareidolia,
            hands,
            &self.env,
            &mut self.out,
            dollars,
            rng,
        );
        self.jokers.set(t, j);
        let ghost step = effects::before_step(
            o.hooks.jokers[t as int],
            bp,
            v,
            pareidolia,
            o.hands,
            o.hooks.env,
            o.hooks.out,
            o.dollars,
            o.s,
        );
        if res.level_up {
            hands.level_up(ctx.hand_type, 1);
        }
        assert(self@ =~= (Engine { out: step.out, ..o.hooks.with(t, step.j) }));
        if res.dna_copy {
            self.copy_first(ctx);
        }
    }

    fn before_all(
        &mut self,
        ctx: &mut BeforeCtx,
        hands: &mut HandsTable,
        dollars: &mut i64,
        rng: &mut RngState,
    )
        requires
            old(ctx)@.valid(),
        ensures
            final(self).outcome(*final(ctx), *final(hands), *final(dollars), final(rng)@)
                == before_from(
                old(ctx)@,
                old(self).outcome(*old(ctx), *old(hands), *old(dollars), old(rng)@),
                0,
                old(self)@.jokers.len(),
            ),
            final(ctx).full_hand@.len() == old(ctx).full_hand@.len(),
            final(ctx).scoring == old(ctx).scoring,
            final(ctx).hand_type == old(ctx).hand_type,
            final(ctx).poker_hands == old(ctx).poker_hands,
    {
        let ghost v = ctx@;
        let ghost goal = before_from(
            v,
            self.outcome(*ctx, *hands, *dollars, rng@),
            0,
            self@.jokers.len(),
        );
        let n: usize = self.jokers.len();
        let mut i: usize = 0;
        while i < n
            invariant
                i <= n,
                n == self.jokers.len(),
                v == old(ctx)@,
                ctx@.valid(),
                before_from(
                    v,
                    self.outcome(*ctx, *hands, *dollars, rng@),
                    i as nat,
                    n as nat,
                ) == goal,
                ctx.full_hand@.len() == old(ctx).full_hand@.len(),
                ctx.scoring == old(ctx).scoring,
                ctx.hand_type == old(ctx).hand_type,
                ctx.poker_hands == old(ctx).poker_hands,
            decreases n - i,
        {
            let ghost here = ctx@;
            let ghost o = self.outcome(*ctx, *hands, *dollars, rng@);
            self.before_step(i, ctx, hands, dollars, rng);
            assert(standing(here, o) == standing(v, o));
            assert(before_one(here, o, i as nat) == before_one(v, o, i as nat));
            i = i + 1;
        }
    }
}

/// How often the first `n` jokers have a scoring card looked at again.
pub open spec fn plays_again(e: Engine, v: HandView, card: Card, n: nat) -> u32
    decreases n,
{
    if n == 0 {
        0
    } else {
        let rest = plays_again(e, v, card, (n - 1) as nat);
        match e.acting((n - 1) as nat) {
            Some((t, _)) => rest.wrapping_add(
                effects::extra_plays(
                    e.jokers[t as int],
                    v,
                    card,
                    owns(e.jokers, JokerId::Pareidolia),
                    e.env,
                ),
            ),
            None => rest,
        }
    }
}

/// How many of the first `n` jokers act as Mime.
pub open spec fn mimes(jokers: Seq<OwnedJoker>, n: nat) -> u32
    decreases n,
{
    if n == 0 {
        0
    } else {
        let rest = mimes(jokers, (n - 1) as nat);
        match resolved(jokers, (n - 1) as usize) {
            Some((t, _)) => if jokers[t as int].id == JokerId::Mime {
                rest.wrapping_add(1)
            } else {
                rest
            },
            None => rest,
        }
    }
}

/// Jokers looking at a card: the jokers, the effects so far, and the streams.
#[verifier::ext_equal]
pub struct Looking {
    pub e: Engine,
    pub effs: Seq<CardEffect>,
    pub s: Streams,
}

impl Looking {
    /// With what one more joker makes of the card.
    pub open spec fn and(self, t: usize, step: effects::CardStep) -> Looking {
        Looking {
            e: Engine { out: step.out, ..self.e.with(t, step.j) },
            effs: match step.eff {
                Some(x) => self.effs.push(x),
                None => self.effs,
            },
            s: step.s,
        }
    }

    /// The joker in place `i` looks at a scoring card.
    pub open spec fn play_one(
        self,
        v: HandView,
        card: Card,
        lucky: bool,
        pareidolia: bool,
        smeared: bool,
        i: nat,
    ) -> Looking {
        match self.e.acting(i) {
            None => self,
            Some((t, bp)) => self.and(
                t,
                effects::play_step(
                    self.e.jokers[t as int],
                    bp,
                    v,
                    card,
                    lucky,
                    pareidolia,
                    smeared,
                    self.e.env,
                    self.e.out,
                    self.s,
                ),
            ),
        }
    }

    /// The jokers in places `i` to `n` look at a scoring card.
    pub open spec fn play_from(
        self,
        v: HandView,
        card: Card,
        lucky: bool,
        pareidolia: bool,
        smeared: bool,
        i: nat,
        n: nat,
    ) -> Looking
        decreases n - i,
    {
        if i >= n {
            self
        } else {
            self.play_one(v, card, lucky, pareidolia, smeared, i).play_from(
                v,
                card,
                lucky,
                pareidolia,
                smeared,
                i + 1,
                n,
            )
        }
    }

    /// The joker in place `i` looks at a held card.
    pub open spec fn held_one(self, v: HandView, card: Card, pareidolia: bool, i: nat) -> Looking {
        match self.e.acting(i) {
            None => self,
            Some((t, bp)) => self.and(
                t,
                effects::held_step(
                    self.e.jokers[t as int],
                    v,
                    card,
                    pareidolia,
                    self.e.env,
                    self.e.out,
                    self.s,
                ),
            ),
        }
    }

    /// The jokers in places `i` to `n` look at a held card.
    pub open spec fn held_from(self, v: HandView, card: Card, pareidolia: bool, i: nat, n: nat) -> Looking
        decreases n - i,
    {
        if i >= n {
            self
        } else {
            self.held_one(v, card, pareidolia, i).held_from(v, card, pareidolia, i + 1, n)
        }
    }
}

impl EngineHooks {
    fn count_mimes(&self) -> (r: u32)
        ensures
            r == mimes(self.jokers@, self.jokers@.len()),
    {
        let mut reps: u32 = 0;
        let mut i: usize = 0;
        while i < self.jokers.len()
            invariant
                i <= self.jokers.len(),
                reps == mimes(self.jokers@, i as nat),
            decreases self.jokers.len() - i,
        {
            if let Some((t, _bp)) = resolve_effective(&self.jokers, i) {
                if self.jokers[t].id == JokerId::Mime {
                    reps = reps.wrapping_add(1);
                }
            }
            i = i + 1;
        }
        reps
    }

    fn plays_again(&self, ctx: &HandCtx, card: &Card) -> (r: u32)
        requires
            ctx@.valid(),
        ensures
            r == plays_again(self@, ctx@, *card, self@.jokers.len()),
    {
        let pareidolia = self.pareidolia();
        let mut reps: u32 = 0;
        let mut i: usize = 0;
        while i < self.jokers.len()
            invariant
                i <= self.jokers.len(),
                ctx@.valid(),
                pareidolia == owns(self.jokers@, JokerId::Pareidolia),
                reps == plays_again(self@, ctx@, *card, i as nat),
            decreases self.jokers.len() - i,
        {
            if let Some((t, _bp)) = resolve_effective(&self.jokers, i) {
                let more: u32 = effects::repetition_play(
                    &self.jokers[t],
                    ctx,
                    card,
                    pareidolia,
                    &self.env,
                );
                reps = reps.wrapping_add(more);
            }
            i = i + 1;
        }
        reps
    }

    fn play_all(&mut self, ctx: &HandCtx, card: &Card, lucky: bool, rng: &mut RngState) -> (r: Vec<
        CardEffect,
    >)
        requires
            ctx@.valid(),
        ensures
            (Looking { e: final(self)@, effs: r@, s: final(rng)@ }) == (Looking {
                e: old(self)@,
                effs: seq![],
                s: old(rng)@,
            }).play_from(
                ctx@,
                *card,
                lucky,
                owns(old(self)@.jokers, JokerId::Pareidolia),
                owns(old(self)@.jokers, JokerId::Smeared),
                0,
                old(self)@.jokers.len(),
            ),
    {
        let pareidolia = self.pareidolia();
        let smeared = self.smeared();
        let mut effs: Vec<CardEffect> = Vec::new();
        assert(effs@ =~= seq![]);
        let ghost goal = (Looking { e: self@, effs: seq![], s: rng@ }).play_from(
            ctx@,
            *card,
            lucky,
            pareidolia,
            smeared,
            0,
            self@.jokers.len(),
        );
        let n: usize = self.jokers.len();
        let mut i: usize = 0;
        while i < n
            invariant
                i <= n,
                n == self.jokers.len(),
                ctx@.valid(),
                (Looking { e: self@, effs: effs@, s: rng@ }).play_from(
                    ctx@,
                    *card,
                    lucky,
                    pareidolia,
                    smeared,
                    i as nat,
                    n as nat,
                ) == goal,
            decreases n - i,
        {
            let ghost l = Looking { e: self@, effs: effs@, s: rng@ };
            if let Some((t, bp)) = resolve_effective(&self.jokers, i) {
                let mut j = self.jokers[t];
                let eff = effects::individual_play(
                    &mut j,
                    bp,
                    ctx,
                    card,
                    lucky,
                    pareidolia,
                    smeared,
                    &self.env,
                    &mut self.out,
                    rng,
                );
                self.jokers.set(t, j);
                if let Some(x) = eff {
                    effs.push(x);
                }
            }
            assert((Looking { e: self@, effs: effs@, s: rng@ }) =~= l.play_one(
                ctx@,
                *card,
                lucky,
                pareidolia,
                smeared,
                i as nat,
            ));
            i = i + 1;
        }
        effs
    }

    fn held_all(&mut self, ctx: &HandCtx, card: &Card, rng: &mut RngState) -> (r: Vec<CardEffect>)
        ensures
            (Looking { e: final(self)@, effs: r@, s: final(rng)@ }) == (Looking {
                e: old(self)@,
                effs: seq![],
                s: old(rng)@,
            }).held_from(
                ctx@,
                *card,
                owns(old(self)@.jokers, JokerId::Pareidolia),
                0,
                old(self)@.jokers.len(),
            ),
    {
        let pareidolia = self.pareidolia();
        let mut effs: Vec<CardEffect> = Vec::new();
        assert(effs@ =~= seq![]);
        let ghost goal = (Looking { e: self@, effs: seq![], s: rng@ }).held_from(
            ctx@,
            *card,
            pareidolia,
            0,
            self@.jokers.len(),
        );
        let n: usize = self.jokers.len();
        let mut i: usize = 0;
        while i < n
            invariant
                i <= n,
                n == self.jokers.len(),
                (Looking { e: self@, effs: effs@, s: rng@ }).held_from(
                    ctx@,
                    *card,
                    pareidolia,
                    i as nat,
                    n as nat,
                ) == goal,
            decreases n - i,
        {
            let ghost l = Looking { e: self@, effs: effs@, s: rng@ };
            if let Some((t, _bp)) = resolve_effective(&self.jokers, i) {
                let eff = effects::individual_held(
                    &self.jokers[t],
                    ctx,
                    card,
                    pareidolia,
                    &self.env,
                    &mut self.out,
                    rng,
                );
                if let Some(x) = eff {
                    effs.push(x);
                }
                assert(self.jokers@ =~= l.e.jokers.update(t as int, l.e.jokers[t as int]));
            }
            assert((Looking { e: self@, effs: effs@, s: rng@ }) =~= l.held_one(
                ctx@,
                *card,
                pareidolia,
                i as nat,
            ));
            i = i + 1;
        }
        effs
    }
}

/// What the jokers among the first `n` but `own` sell for together.
pub open spec fn others_worth(e: Engine, own: usize, n: nat) -> Double
    decreases n,
{
    if n == 0 {
        Double::of(0)
    } else {
        let rest = others_worth(e, own, (n - 1) as nat);
        if n - 1 == own {
            rest
        } else {
            rest.plus(Double::of(worth(e.jokers[n - 1], e.env) as int))
        }
    }
}

/// How many of the first `n` jokers are Stencils.
pub open spec fn stencils(jokers: Seq<OwnedJoker>, n: nat) -> nat
    decreases n,
{
    if n == 0 {
        0
    } else {
        stencils(jokers, (n - 1) as nat) + (if jokers[n - 1].id == JokerId::Stencil {
            1nat
        } else {
            0
        })
    }
}

/// The factor of a joker at this moment.
pub open spec fn live_x(e: Engine, t: usize) -> Double {
    match e.jokers[t as int].id {
        JokerId::Throwback => Double::of(1).plus(
            Double::of(e.env.skips as int).times(Double::frac(25, 100)),
        ),
        JokerId::Stencil => Double::of(e.env.joker_slots as int).minus(
            Double::of(e.jokers.len() as int),
        ).plus(Double::of(stencils(e.jokers, e.jokers.len()) as int)),
        _ => e.jokers[t as int].state.x_mult,
    }
}

/// The multiplier after each Baseball Card among the first `n` jokers had its
/// say of the joker in place `i`.
pub open spec fn baseball(jokers: Seq<OwnedJoker>, i: int, mult: Double, n: nat) -> Double
    decreases n,
{
    if n == 0 {
        mult
    } else {
        let m = baseball(jokers, i, mult, (n - 1) as nat);
        match resolved(jokers, (n - 1) as usize) {
            Some((t, _)) => if jokers[t as int].id == JokerId::Baseball && jokers[i].id.row().rarity
                == 2 && jokers[t as int].sort_id != jokers[i].sort_id {
                m.times(Double::frac(15, 10))
            } else {
                m
            },
            None => m,
        }
    }
}

/// The score while the jokers act on their own.
#[verifier::ext_equal]
pub struct Tally {
    pub out: Outbox,
    pub chips: Double,
    pub mult: Double,
    pub dollars: i64,
    pub s: Streams,
}

/// A value with an optional summand.
pub open spec fn with_bonus(x: Double, bonus: Option<Double>) -> Double {
    match bonus {
        Some(b) => x.plus(b),
        None => x,
    }
}

/// What the edition of a joker adds.
pub open spec fn edition_at(j: OwnedJoker) -> Edition {
    if j.debuffed {
        Edition::Plain
    } else {
        j.edition
    }
}

impl Tally {
    /// The joker in place `i` has its own effect.
    pub open spec fn own(self, e: Engine, v: HandView, hands: HandsTable, triggered: bool, i: nat) -> Tally {
        match resolved(e.jokers, i as usize) {
            None => self,
            Some((t, _)) => {
                let step = effects::main_step(
                    e.jokers[t as int],
                    v,
                    hands,
                    e.jokers.len() as usize,
                    others_worth(e, t, e.jokers.len()),
                    live_x(e, t),
                    owns(e.jokers, JokerId::Smeared),
                    triggered,
                    e.env,
                    self.out,
                    self.dollars,
                    self.s,
                );
                Tally {
                    out: step.out,
                    chips: match step.eff {
                        Some(x) => self.chips.plus(x.chip_mod),
                        None => self.chips,
                    },
                    mult: match step.eff {
                        Some(x) => x.mult_after(self.mult),
                        None => self.mult,
                    },
                    dollars: step.dollars,
                    s: step.s,
                }
            },
        }
    }

    /// The joker in place `i` acts: the chips and the multiplier of its
    /// edition, its own effect, what other jokers make of it, and the factor of
    /// its edition.
    pub open spec fn one(self, e: Engine, v: HandView, hands: HandsTable, triggered: bool, i: nat) -> Tally {
        let (chips, mult, x) = edition_at(e.jokers[i as int]).mods();
        let first = Tally {
            chips: with_bonus(self.chips, chips),
            mult: with_bonus(self.mult, mult),
            ..self
        };
        let then = first.own(e, v, hands, triggered, i);
        let m = baseball(e.jokers, i as int, then.mult, e.jokers.len());
        Tally {
            mult: match x {
                Some(f) => m.times(f),
                None => m,
            },
            ..then
        }
    }

    /// The jokers in places `i` on act.
    pub open spec fn from(self, e: Engine, v: HandView, hands: HandsTable, triggered: bool, i: nat) -> Tally
        decreases e.jokers.len() - i,
    {
        if i >= e.jokers.len() {
            self
        } else {
            self.one(e, v, hands, triggered, i).from(e, v, hands, triggered, i + 1)
        }
    }
}

/// The multiplier after the Observatory had its say of the first `n` planets
/// held.
pub open spec fn observed(e: Engine, v: HandView, mult: Double, n: nat) -> Double
    decreases n,
{
    if n == 0 {
        mult
    } else {
        let m = observed(e, v, mult, (n - 1) as nat);
        if e.env.observatory && items::planet_hand(e.keys[n - 1]@) == Some(v.hand_type) {
            m.times(Double::frac(15, 10))
        } else {
            m
        }
    }
}

impl EngineHooks {
    fn swashbuckler_mult(&self, own_idx: usize) -> (r: Double)
        ensures
            r == others_worth(self@, own_idx, self@.jokers.len()),
    {
        let mut sum = Double::from_i64(0);
        let mut i: usize = 0;
        while i < self.jokers.len()
            invariant
                i <= self.jokers.len(),
                sum == others_worth(self@, own_idx, i as nat),
            decreases self.jokers.len() - i,
        {
            if i != own_idx {
                let w: i64 = joker_worth(&self.jokers[i], &self.env);
                sum = sum.add(Double::from_i64(w));
            }
            i = i + 1;
        }
        sum
    }

    fn count_stencils(&self) -> (r: usize)
        ensures
            r == stencils(self.jokers@, self.jokers@.len()),
    {
        let mut k: usize = 0;
        let mut i: usize = 0;
        while i < self.jokers.len()
            invariant
                k <= i <= self.jokers.len(),
                k == stencils(self.jokers@, i as nat),
            decreases self.jokers.len() - i,
        {
            if self.jokers[i].id == JokerId::Stencil {
                k = k + 1;
            }
            i = i + 1;
        }
        k
    }

    fn live_x_mult(&self, t: usize) -> (r: Double)
        requires
            t < self.jokers.len(),
        ensures
            r == live_x(self@, t),
    {
        match self.jokers[t].id {
            JokerId::Throwback => Double::from_i64(1).add(
                Double::from_i64(self.env.skips).mul(Double::lit(25, 100)),
            ),
            JokerId::Stencil => {
                let count: usize = self.count_stencils();
                Double::from_u64(self.env.joker_slots as u64).sub(
                    Double::from_u64(self.jokers.len() as u64),
                ).add(Double::from_u64(count as u64))
            },
            _ => self.jokers[t].state.x_mult,
        }
    }

    fn baseball(&self, i: usize, mult: Double) -> (r: Double)
        requires
            i < self.jokers.len(),
        ensures
            r == baseball(self.jokers@, i as int, mult, self.jokers@.len()),
    {
        let other_rarity = self.jokers[i].id.meta().rarity;
        let other_sort_id = self.jokers[i].sort_id;
        let mut m = mult;
        let mut v: usize = 0;
        while v < self.jokers.len()
            invariant
                v <= self.jokers.len(),
                i < self.jokers.len(),
                other_rarity == self.jokers@[i as int].id.row().rarity,
                other_sort_id == self.jokers@[i as int].sort_id,
                m == baseball(self.jokers@, i as int, mult, v as nat),
            decreases self.jokers.len() - v,
        {
            if let Some((t, _bp)) = resolve_effective(&self.jokers, v) {
                if self.jokers[t].id == JokerId::Baseball && other_rarity == 2
                    && self.jokers[t].sort_id != other_sort_id {
                    m = m.mul(Double::lit(15, 10));
                }
            }
            v = v + 1;
        }
        m
    }

    fn main_own(
        &mut self,
        i: usize,
        ctx: &HandCtx,
        hands: &HandsTable,
        chips: &mut Double,
        mult: &mut Double,
        dollars: &mut i64,
        triggered: bool,
        rng: &mut RngState,
    )
        requires
            ctx@.valid(),
        ensures
            (Tally {
                out: final(self)@.out,
                chips: *final(chips),
                mult: *final(mult),
                dollars: *final(dollars),
                s: final(rng)@,
            }) == (Tally {
                out: old(self)@.out,
                chips: *old(chips),
                mult: *old(mult),
                dollars: *old(dollars),
                s: old(rng)@,
            }).own(old(self)@, ctx@, *hands, triggered, i as nat),
            final(self)@ == (Engine { out: final(self)@.out, ..old(self)@ }),
    {
        if let Some((t, _bp)) = resolve_effective(&self.jokers, i) {
            let swash = self.swashbuckler_mult(t);
            let live_x = self.live_x_mult(t);
            let smeared = self.smeared();
            let n: usize = self.jokers.len();
            let res = effects::joker_main(
                &self.jokers[t],
                ctx,
                hands,
                n,
                swash,
                live_x,
                smeared,
                triggered,
                &self.env,
                &mut self.out,
                dollars,
                rng,
            );
            if let Some(eff) = res {
                eff.apply(chips, mult);
            }
        }
    }

    fn main_one(
        &mut self,
        i: usize,
        ctx: &HandCtx,
        hands: &HandsTable,
        chips: &mut Double,
        mult: &mut Double,
        dollars: &mut i64,
        triggered: bool,
        rng: &mut RngState,
    )
        requires
            i < old(self).jokers.len(),
            ctx@.valid(),
        ensures
            (Tally {
                out: final(self)@.out,
                chips: *final(chips),
                mult: *final(mult),
                dollars: *final(dollars),
                s: final(rng)@,
            }) == (Tally {
                out: old(self)@.out,
                chips: *old(chips),
                mult: *old(mult),
                dollars: *old(dollars),
                s: old(rng)@,
            }).one(old(self)@, ctx@, *hands, triggered, i as nat),
            final(self)@ == (Engine { out: final(self)@.out, ..old(self)@ }),
    {
        let edition = if self.jokers[i].debuffed {
            Edition::Plain
        } else {
            self.jokers[i].edition
        };
        let (e_chips, e_mult, e_x) = edition.scoring_mods();
        if let Some(c) = e_chips {
            *chips = chips.add(c);
        }
        if let Some(m) = e_mult {
            *mult = mult.add(m);
        }
        self.main_own(i, ctx, hands, chips, mult, dollars, triggered, rng);
        *mult = self.baseball(i, *mult);
        if let Some(x) = e_x {
            *mult = mult.mul(x);
        }
    }

    fn main_all(
        &mut self,
        ctx: &HandCtx,
        hands: &HandsTable,
        chips: &mut Double,
        mult: &mut Double,
        dollars: &mut i64,
        triggered: bool,
        rng: &mut RngState,
    )
        requires
            ctx@.valid(),
        ensures
            (Tally {
                out: final(self)@.out,
                chips: *final(chips),
                mult: *final(mult),
                dollars: *final(dollars),
                s: final(rng)@,
            }) == (Tally {
                out: old(self)@.out,
                chips: *old(chips),
                mult: *old(mult),
                dollars: *old(dollars),
                s: old(rng)@,
            }).from(Engine { out: Outbox::empty(), ..old(self)@ }, ctx@, *hands, triggered, 0),
            final(self)@ == (Engine { out: final(self)@.out, ..old(self)@ }),
    {
        let ghost e = Engine { out: Outbox::empty(), ..self@ };
        let ghost goal = (Tally {
            out: self@.out,
            chips: *chips,
            mult: *mult,
            dollars: *dollars,
            s: rng@,
        }).from(e, ctx@, *hands, triggered, 0);
        let n: usize = self.jokers.len();
        let mut i: usize = 0;
        while i < n
            invariant
                i <= n,
                n == self.jokers.len(),
                ctx@.valid(),
                e == (Engine { out: Outbox::empty(), ..self@ }),
                e == (Engine { out: Outbox::empty(), ..old(self)@ }),
                (Tally {
                    out: self@.out,
                    chips: *chips,
                    mult: *mult,
                    dollars: *dollars,
                    s: rng@,
                }).from(e, ctx@, *hands, triggered, i as nat) == goal,
            decreases n - i,
        {
            let ghost here = self@;
            proof {
                lemma_main_ignores_outbox(e, here);
            }
            self.main_one(i, ctx, hands, chips, mult, dollars, triggered, rng);
            i = i + 1;
        }
    }

    fn observe(&self, ctx: &HandCtx, mult: Double) -> (r: Double)
        ensures
            r == observed(self@, ctx@, mult, self@.keys.len()),
    {
        let mut m = mult;
        let mut k: usize = 0;
        while k < self.consumable_keys.len()
            invariant
                k <= self.consumable_keys.len(),
                m == observed(self@, ctx@, mult, k as nat),
            decreases self.consumable_keys.len() - k,
        {
            let hit = match items::hand_for_planet(self.consumable_keys[k]) {
                Some(ht) => ht == ctx.hand_type,
                None => false,
            };
            if self.env.observatory && hit {
                m = m.mul(Double::lit(15, 10));
            }
            k = k + 1;
        }
        m
    }
}

proof fn lemma_worth_ignores_outbox(e: Engine, f: Engine, own: usize, n: nat)
    requires
        e == (Engine { out: e.out, ..f }),
    ensures
        others_worth(e, own, n) == others_worth(f, own, n),
    decreases n,
{
    if n > 0 {
        lemma_worth_ignores_outbox(e, f, own, (n - 1) as nat);
    }
}

/// What is already on its way changes nothing in how a joker acts on its own.
proof fn lemma_main_ignores_outbox(e: Engine, f: Engine)
    requires
        e == (Engine { out: e.out, ..f }),
    ensures
        forall|st: Tally, v: HandView, hands: HandsTable, triggered: bool, i: nat|
            (#[trigger] st.one(e, v, hands, triggered, i)) == st.one(f, v, hands, triggered, i),
{
    assert forall|own: usize, n: nat| #[trigger]
        others_worth(e, own, n) == others_worth(f, own, n) by {
        lemma_worth_ignores_outbox(e, f, own, n);
    }
    assert forall|st: Tally, v: HandView, hands: HandsTable, triggered: bool, i: nat|
        (#[trigger] st.one(e, v, hands, triggered, i)) == st.one(f, v, hands, triggered, i) by {
        assert(forall|t: usize| live_x(e, t) == live_x(f, t));
    }
}

/// Whether Sixth Sense destroys the played card: a single 6 in the first hand
/// of a round.
pub open spec fn sixth_sense(e: Engine, full_hand: Seq<Card>) -> bool {
    owns(e.jokers, JokerId::SixthSense) && full_hand.len() == 1 && full_hand[0].eval_id() == Some(
        6u8,
    ) && e.env.hands_played_round == 0
}

/// How many of the first `n` cards are Glass.
pub open spec fn glass_among(cards: Seq<Card>, n: nat) -> nat
    decreases n,
{
    if n == 0 {
        0
    } else {
        glass_among(cards, (n - 1) as nat) + (if cards[n - 1].enhancement == Enhancement::Glass {
            1nat
        } else {
            0
        })
    }
}

fn count_glass(cards: &Vec<Card>) -> (r: usize)
    ensures
        r == glass_among(cards@, cards@.len()),
{
    let mut k: usize = 0;
    let mut i: usize = 0;
    while i < cards.len()
        invariant
            k <= i <= cards.len(),
            k == glass_among(cards@, i as nat),
        decreases cards.len() - i,
    {
        if cards[i].enhancement == Enhancement::Glass {
            k = k + 1;
        }
        i = i + 1;
    }
    k
}

impl Engine {
    /// The joker in place `i` sees cards destroyed: Canio counts faces, the
    /// Glass Joker counts Glass cards.
    pub open spec fn destroyed_one(self, cards: Seq<Card>, pareidolia: bool, i: nat) -> Engine {
        match self.acting(i) {
            Some((t, bp)) => {
                let j = self.jokers[t as int];
                if bp {
                    self
                } else if j.id == JokerId::Caino {
                    self.with(
                        t,
                        j.gain_extra(effects::faces_among(cards, pareidolia, cards.len()) as int),
                    )
                } else if j.id == JokerId::Glass {
                    self.with(
                        t,
                        j.gain_x(
                            Double::frac(75, 100).times(
                                Double::of(glass_among(cards, cards.len()) as int),
                            ),
                        ),
                    )
                } else {
                    self
                }
            },
            None => self,
        }
    }

    pub open spec fn destroyed_from(self, cards: Seq<Card>, pareidolia: bool, i: nat, n: nat) -> Engine
        decreases n - i,
    {
        if i >= n {
            self
        } else {
            self.destroyed_one(cards, pareidolia, i).destroyed_from(cards, pareidolia, i + 1, n)
        }
    }

    /// The joker in place `i` sees a hand scored.
    pub open spec fn after_one(self, i: nat) -> Engine {
        match self.acting(i) {
            Some((t, bp)) => {
                let (j, out) = effects::after_step(self.jokers[t as int], bp, self.out);
                Engine { out, ..self.with(t, j) }
            },
            None => self,
        }
    }

    pub open spec fn after_from(self, i: nat, n: nat) -> Engine
        decreases n - i,
    {
        if i >= n {
            self
        } else {
            self.after_one(i).after_from(i + 1, n)
        }
    }
}

/// How many of the first `n` jokers act as `id`.
pub open spec fn acting_as(jokers: Seq<OwnedJoker>, id: JokerId, n: nat) -> nat
    decreases n,
{
    if n == 0 {
        0
    } else {
        acting_as(jokers, id, (n - 1) as nat) + (match resolved(jokers, (n - 1) as usize) {
            Some((t, _)) => if jokers[t as int].id == id {
                1nat
            } else {
                0
            },
            None => 0,
        })
    }
}

/// The dollars and the outbox after that many payments of 8.
pub open spec fn paid_eight(out: Outbox, dollars: i64, n: nat) -> (Outbox, i64)
    decreases n,
{
    if n == 0 {
        (out, dollars)
    } else {
        let (o, d) = paid_eight(out, dollars, (n - 1) as nat);
        (o.paid(8), d.wrapping_add(8))
    }
}

/// The hands after one of them went up that many levels, one by one.
pub open spec fn raised(hands: HandsTable, ht: HandType, n: nat) -> HandsTable
    decreases n,
{
    if n == 0 {
        hands
    } else {
        raised(hands, ht, (n - 1) as nat).leveled_up(ht, 1)
    }
}

/// Jokers looking at a discarded card.
#[verifier::ext_equal]
pub struct Discarding {
    pub e: Engine,
    pub removed: bool,
    pub dollars: i64,
}

impl Discarding {
    pub open spec fn one(
        self,
        card: Card,
        selected: Seq<Card>,
        pareidolia: bool,
        smeared: bool,
        i: nat,
    ) -> Discarding {
        match self.e.acting(i) {
            None => self,
            Some((t, bp)) => {
                let step = effects::discard_step(
                    self.e.jokers[t as int],
                    bp,
                    card,
                    selected,
                    pareidolia,
                    smeared,
                    self.e.env,
                    self.e.out,
                    self.dollars,
                );
                Discarding {
                    e: Engine { out: step.out, ..self.e.with(t, step.j) },
                    removed: self.removed || step.removed,
                    dollars: step.dollars,
                }
            },
        }
    }

    pub open spec fn from(
        self,
        card: Card,
        selected: Seq<Card>,
        pareidolia: bool,
        smeared: bool,
        i: nat,
        n: nat,
    ) -> Discarding
        decreases n - i,
    {
        if i >= n {
            self
        } else {
            self.one(card, selected, pareidolia, smeared, i).from(
                card,
                selected,
                pareidolia,
                smeared,
                i + 1,
                n,
            )
        }
    }
}

/// Jokers seeing a round end.
#[verifier::ext_equal]
pub struct Ending {
    pub e: Engine,
    pub saved: bool,
    pub s: Streams,
}

impl Ending {
    /// The joker in place `i` sees the round end; once the run is saved, it is
    /// no longer lost.
    pub open spec fn one(self, hands: HandsTable, game_over: bool, i: nat) -> Ending {
        match self.e.acting(i) {
            None => self,
            Some((t, bp)) => if bp {
                self
            } else {
                let step = effects::round_step(
                    self.e.jokers[t as int],
                    hands,
                    game_over && !self.saved,
                    self.e.env,
                    self.e.out,
                    self.s,
                );
                Ending {
                    e: Engine { out: step.out, ..self.e.with(t, step.j) },
                    saved: self.saved || step.saved,
                    s: step.s,
                }
            },
        }
    }

    pub open spec fn from(self, hands: HandsTable, game_over: bool, i: nat, n: nat) -> Ending
        decreases n - i,
    {
        if i >= n {
            self
        } else {
            self.one(hands, game_over, i).from(hands, game_over, i + 1, n)
        }
    }
}

/// What the first `n` jokers pay at cash out.
pub open spec fn paid_out(e: Engine, n: nat) -> i64
    decreases n,
{
    if n == 0 {
        0
    } else {
        let rest = paid_out(e, (n - 1) as nat);
        if e.jokers[n - 1].debuffed {
            rest
        } else {
            rest.wrapping_add(effects::payout(e.jokers[n - 1], e.env))
        }
    }
}

impl EngineHooks {
    fn destroyed_all(&mut self, destroyed: &Vec<Card>)
        ensures
            final(self)@ == old(self)@.destroyed_from(
                destroyed@,
                owns(old(self)@.jokers, JokerId::Pareidolia),
                0,
                old(self)@.jokers.len(),
            ),
    {
        let pareidolia = self.pareidolia();
        let n: usize = self.jokers.len();
        let mut i: usize = 0;
        while i < n
            invariant
                i <= n,
                n == self.jokers.len(),
                self@.destroyed_from(destroyed@, pareidolia, i as nat, n as nat)
                    == old(self)@.destroyed_from(destroyed@, pareidolia, 0, n as nat),
            decreases n - i,
        {
            let ghost before = self@;
            if let Some((t, bp)) = resolve_effective(&self.jokers, i) {
                let mut j = self.jokers[t];
                if !bp && j.id == JokerId::Caino {
                    let faces: usize = effects::count_faces(destroyed, pareidolia);
                    j.state.extra = j.state.extra.add(Double::from_u64(faces as u64));
                    self.jokers.set(t, j);
                } else if !bp && j.id == JokerId::Glass {
                    let glass: usize = count_glass(destroyed);
                    j.state.x_mult = j.state.x_mult.add(
                        Double::lit(75, 100).mul(Double::from_u64(glass as u64)),
                    );
                    self.jokers.set(t, j);
                }
            }
            assert(self@ =~= before.destroyed_one(destroyed@, pareidolia, i as nat));
            i = i + 1;
        }
    }

    fn after_all(&mut self)
        ensures
            final(self)@ == old(self)@.after_from(0, old(self)@.jokers.len()),
    {
        let n: usize = self.jokers.len();
        let mut i: usize = 0;
        while i < n
            invariant
                i <= n,
                n == self.jokers.len(),
                self@.after_from(i as nat, n as nat) == old(self)@.after_from(0, n as nat),
            decreases n - i,
        {
            let ghost before = self@;
            if let Some((t, bp)) = resolve_effective(&self.jokers, i) {
                let mut j = self.jokers[t];
                effects::after_hand(&mut j, bp, &mut self.out);
                self.jokers.set(t, j);
            }
            assert(self@ =~= before.after_one(i as nat));
            i = i + 1;
        }
    }

    fn pay_matadors(&mut self, dollars: &mut i64)
        ensures
            ({
                let (o, d) = paid_eight(
                    old(self)@.out,
                    *old(dollars),
                    acting_as(old(self)@.jokers, JokerId::Matador, old(self)@.jokers.len()),
                );
                final(self)@ == (Engine { out: o, ..old(self)@ }) && *final(dollars) == d
            }),
    {
        let mut i: usize = 0;
        while i < self.jokers.len()
            invariant
                i <= self.jokers.len(),
                (self@.out, *dollars) == paid_eight(
                    old(self)@.out,
                    *old(dollars),
                    acting_as(old(self)@.jokers, JokerId::Matador, i as nat),
                ),
                self@ == (Engine { out: self@.out, ..old(self)@ }),
            decreases self.jokers.len() - i,
        {
            if let Some((t, _bp)) = resolve_effective(&self.jokers, i) {
                if self.jokers[t].id == JokerId::Matador {
                    *dollars = dollars.wrapping_add(8);
                    self.out.pay(8);
                }
            }
            i = i + 1;
        }
    }

    fn burn(&self, selected: &Vec<Card>, hands: &mut HandsTable, mods: &EvalMods)
        ensures
            *final(hands) == raised(
                *old(hands),
                handeval::played_hand(selected@, *mods),
                acting_as(self@.jokers, JokerId::Burnt, self@.jokers.len()),
            ),
    {
        let mut i: usize = 0;
        while i < self.jokers.len()
            invariant
                i <= self.jokers.len(),
                *hands == raised(
                    *old(hands),
                    handeval::played_hand(selected@, *mods),
                    acting_as(self@.jokers, JokerId::Burnt, i as nat),
                ),
            decreases self.jokers.len() - i,
        {
            if let Some((t, _bp)) = resolve_effective(&self.jokers, i) {
                if self.jokers[t].id == JokerId::Burnt {
                    let (ht, _, _) = handeval::get_poker_hand_info(selected, mods);
                    hands.level_up(ht, 1);
                }
            }
            i = i + 1;
        }
    }

    fn discard_all(&mut self, card: &Card, selected: &Vec<Card>, dollars: &mut i64) -> (r: bool)
        ensures
            (Discarding { e: final(self)@, removed: r, dollars: *final(dollars) }) == (Discarding {
                e: old(self)@,
                removed: false,
                dollars: *old(dollars),
            }).from(
                *card,
                selected@,
                owns(old(self)@.jokers, JokerId::Pareidolia),
                owns(old(self)@.jokers, JokerId::Smeared),
                0,
                old(self)@.jokers.len(),
            ),
    {
        let pareidolia = self.pareidolia();
        let smeared = self.smeared();
        let ghost goal = (Discarding { e: self@, removed: false, dollars: *dollars }).from(
            *card,
            selected@,
            pareidolia,
            smeared,
            0,
            self@.jokers.len(),
        );
        let mut removed = false;
        let n: usize = self.jokers.len();
        let mut i: usize = 0;
        while i < n
            invariant
                i <= n,
                n == self.jokers.len(),
                (Discarding { e: self@, removed, dollars: *dollars }).from(
                    *card,
                    selected@,
                    pareidolia,
                    smeared,
                    i as nat,
                    n as nat,
                ) == goal,
            decreases n - i,
        {
            let ghost before = Discarding { e: self@, removed, dollars: *dollars };
            if let Some((t, bp)) = resolve_effective(&self.jokers, i) {
                let mut j = self.jokers[t];
                let gone = effects::on_discard_card(
                    &mut j,
                    bp,
                    card,
                    selected,
                    pareidolia,
                    smeared,
                    &self.env,
                    &mut self.out,
                    dollars,
                );
                self.jokers.set(t, j);
                removed = removed || gone;
            }
            assert((Discarding { e: self@, removed, dollars: *dollars }) =~= before.one(
                *card,
                selected@,
                pareidolia,
                smeared,
                i as nat,
            ));
            i = i + 1;
        }
        removed
    }

    fn end_all(&mut self, hands: &HandsTable, game_over: bool, rng: &mut RngState) -> (r: bool)
        ensures
            (Ending { e: final(self)@, saved: r, s: final(rng)@ }) == (Ending {
                e: old(self)@,
                saved: false,
                s: old(rng)@,
            }).from(*hands, game_over, 0, old(self)@.jokers.len()),
    {
        let ghost goal = (Ending { e: self@, saved: false, s: rng@ }).from(
            *hands,
            game_over,
            0,
            self@.jokers.len(),
        );
        let mut saved_any = false;
        let n: usize = self.jokers.len();
        let mut i: usize = 0;
        while i < n
            invariant
                i <= n,
                n == self.jokers.len(),
                (Ending { e: self@, saved: saved_any, s: rng@ }).from(
                    *hands,
                    game_over,
                    i as nat,
                    n as nat,
                ) == goal,
            decreases n - i,
        {
            let ghost before = Ending { e: self@, saved: saved_any, s: rng@ };
            if let Some((t, bp)) = resolve_effective(&self.jokers, i) {
                if !bp {
                    let mut j = self.jokers[t];
                    let saved = effects::end_of_round(
                        &mut j,
                        hands,
                        game_over && !saved_any,
                        &self.env,
                        &mut self.out,
                        rng,
                    );
                    self.jokers.set(t, j);
                    saved_any = saved_any || saved;
                }
            }
            assert((Ending { e: self@, saved: saved_any, s: rng@ }) =~= before.one(
                *hands,
                game_over,
                i as nat,
            ));
            i = i + 1;
        }
        saved_any
    }

    fn total_payout(&self) -> (r: i64)
        ensures
            r == paid_out(self@, self@.jokers.len()),
    {
        let mut total: i64 = 0;
        let mut i: usize = 0;
        while i < self.jokers.len()
            invariant
                i <= self.jokers.len(),
                total == paid_out(self@, i as nat),
            decreases self.jokers.len() - i,
        {
            if !self.jokers[i].debuffed {
                let x: i64 = effects::dollar_bonus(&self.jokers[i], &self.env);
                total = total.wrapping_add(x);
            }
            i = i + 1;
        }
        total
    }
}

impl JokerHooks for EngineHooks {
    type M = Engine;

    open spec fn model(&self) -> Engine {
        self@
    }

    open spec fn at_setting_blind(m: Engine, s: Streams) -> (Engine, Streams) {
        let st = (Setting { e: m, sliced: seq![], s }).from(0, m.jokers.len());
        (st.e, st.s)
    }

    fn setting_blind(&mut self, rng: &mut RngState) {
        self.set_all(rng);
    }

    open spec fn at_first_hand(m: Engine) -> Engine {
        m.first_hand_from(0, m.jokers.len())
    }

    fn first_hand_drawn(&mut self) {
        self.first_hand_all();
    }

    open spec fn all_cards_score(m: Engine) -> bool {
        owns(m.jokers, JokerId::Splash)
    }

    fn splash(&self) -> (r: bool) {
        find_joker(&self.jokers, JokerId::Splash)
    }

    open spec fn at_before(
        m: Engine,
        v: HandView,
        hands: HandsTable,
        dollars: i64,
        s: Streams,
    ) -> BeforeOutcome<Engine> {
        before_from(
            v,
            BeforeOutcome { hooks: m, full_hand: v.full_hand, held: v.held, hands, dollars, s },
            0,
            m.jokers.len(),
        )
    }

    fn before_hand(
        &mut self,
        ctx: &mut BeforeCtx,
        hands: &mut HandsTable,
        dollars: &mut i64,
        rng: &mut RngState,
    ) {
        self.before_all(ctx, hands, dollars, rng);
    }

    open spec fn repetitions(m: Engine, v: HandView, card: Card, s: Streams) -> (
        u32,
        Engine,
        Streams,
    ) {
        (plays_again(m, v, card, m.jokers.len()), m, s)
    }

    fn scoring_card_repetitions(&mut self, ctx: &HandCtx, card: &Card, rng: &mut RngState) -> (r: u32) {
        self.plays_again(ctx, card)
    }

    open spec fn on_play(m: Engine, v: HandView, card: Card, lucky: bool, s: Streams) -> (
        Seq<CardEffect>,
        Engine,
        Streams,
    ) {
        let l = (Looking { e: m, effs: seq![], s }).play_from(
            v,
            card,
            lucky,
            owns(m.jokers, JokerId::Pareidolia),
            owns(m.jokers, JokerId::Smeared),
            0,
            m.jokers.len(),
        );
        (l.effs, l.e, l.s)
    }

    fn on_scoring_card(
        &mut self,
        ctx: &HandCtx,
        card: &Card,
        lucky_trigger: bool,
        rng: &mut RngState,
    ) -> (r: Vec<CardEffect>) {
        self.play_all(ctx, card, lucky_trigger, rng)
    }

    open spec fn on_hold(m: Engine, v: HandView, card: Card, s: Streams) -> (
        Seq<CardEffect>,
        Engine,
        Streams,
    ) {
        let l = (Looking { e: m, effs: seq![], s }).held_from(
            v,
            card,
            owns(m.jokers, JokerId::Pareidolia),
            0,
            m.jokers.len(),
        );
        (l.effs, l.e, l.s)
    }

    fn on_held_card(&mut self, ctx: &HandCtx, card: &Card, rng: &mut RngState) -> (r: Vec<
        CardEffect,
    >) {
        self.held_all(ctx, card, rng)
    }

    open spec fn held_repetitions(
        m: Engine,
        v: HandView,
        card: Card,
        has_effects: bool,
        s: Streams,
    ) -> (u32, Engine, Streams) {
        (
            if has_effects {
                mimes(m.jokers, m.jokers.len())
            } else {
                0
            },
            m,
            s,
        )
    }

    fn held_card_repetitions(
        &mut self,
        ctx: &HandCtx,
        card: &Card,
        has_effects: bool,
        rng: &mut RngState,
    ) -> (r: u32) {
        if has_effects {
            self.count_mimes()
        } else {
            0
        }
    }

    open spec fn at_main(
        m: Engine,
        v: HandView,
        hands: HandsTable,
        chips: Double,
        mult: Double,
        dollars: i64,
        triggered: bool,
        s: Streams,
    ) -> MainOutcome<Engine> {
        let st = (Tally { out: m.out, chips, mult, dollars, s }).from(
            Engine { out: Outbox::empty(), ..m },
            v,
            hands,
            triggered,
            0,
        );
        let e = Engine { out: st.out, ..m };
        MainOutcome {
            hooks: e,
            chips: st.chips,
            mult: observed(e, v, st.mult, e.keys.len()),
            dollars: st.dollars,
            s: st.s,
        }
    }

    fn joker_main(
        &mut self,
        ctx: &HandCtx,
        hands: &HandsTable,
        chips: &mut Double,
        mult: &mut Double,
        dollars: &mut i64,
        blind_triggered: bool,
        rng: &mut RngState,
    ) {
        self.main_all(ctx, hands, chips, mult, dollars, blind_triggered, rng);
        *mult = self.observe(ctx, *mult);
    }

    open spec fn destroys(m: Engine, card: Card, full_hand: Seq<Card>, s: Streams) -> (
        bool,
        Engine,
        Streams,
    ) {
        let hit = sixth_sense(m, full_hand);
        (
            hit,
            if hit && m.out.has_room(m.env) {
                m.and(OutEvent::CreateConsumable(ConsumableSet::Spectral, "sixth"))
            } else {
                m
            },
            s,
        )
    }

    fn destroys_card(&mut self, card: &Card, full_hand: &Vec<Card>, rng: &mut RngState) -> (r: bool) {
        if !find_joker(&self.jokers, JokerId::SixthSense) || full_hand.len() != 1
            || self.env.hands_played_round != 0 {
            return false;
        }
        let six = match full_hand[0].id_for_eval() {
            Some(id) => id == 6,
            None => false,
        };
        if six && self.out.has_room(&self.env) {
            self.out.push(OutEvent::CreateConsumable(ConsumableSet::Spectral, "sixth"));
        }
        six
    }

    open spec fn at_destroyed(m: Engine, destroyed: Seq<Card>) -> Engine {
        m.destroyed_from(destroyed, owns(m.jokers, JokerId::Pareidolia), 0, m.jokers.len())
    }

    fn on_cards_destroyed(&mut self, destroyed: &Vec<Card>) {
        self.destroyed_all(destroyed);
    }

    open spec fn at_after(m: Engine, v: HandView, s: Streams) -> (Engine, Streams) {
        (m.after_from(0, m.jokers.len()), s)
    }

    fn after_hand(&mut self, ctx: &HandCtx, rng: &mut RngState) {
        self.after_all();
    }

    open spec fn at_debuffed(m: Engine, v: HandView, triggered: bool, dollars: i64) -> (Engine, i64) {
        if triggered {
            let (out, d) = paid_eight(
                m.out,
                dollars,
                acting_as(m.jokers, JokerId::Matador, m.jokers.len()),
            );
            (Engine { out, ..m }, d)
        } else {
            (m, dollars)
        }
    }

    fn on_debuffed_hand(&mut self, ctx: &HandCtx, blind_triggered: bool, dollars: &mut i64) {
        if blind_triggered {
            self.pay_matadors(dollars);
        }
    }

    open spec fn at_pre_discard(
        m: Engine,
        selected: Seq<Card>,
        hook: bool,
        hands: HandsTable,
        mods: EvalMods,
    ) -> (Engine, HandsTable) {
        (
            m,
            if hook || m.env.discards_used_round > 0 {
                hands
            } else {
                raised(
                    hands,
                    handeval::played_hand(selected, mods),
                    acting_as(m.jokers, JokerId::Burnt, m.jokers.len()),
                )
            },
        )
    }

    fn pre_discard(&mut self, selected: &Vec<Card>, hook: bool, hands: &mut HandsTable, mods: &EvalMods) {
        if !(hook || self.env.discards_used_round > 0) {
            self.burn(selected, hands, mods);
        }
    }

    open spec fn at_discard(m: Engine, card: Card, selected: Seq<Card>, dollars: i64, s: Streams) -> (
        bool,
        Engine,
        i64,
        Streams,
    ) {
        let d = (Discarding { e: m, removed: false, dollars }).from(
            card,
            selected,
            owns(m.jokers, JokerId::Pareidolia),
            owns(m.jokers, JokerId::Smeared),
            0,
            m.jokers.len(),
        );
        (d.removed, d.e, d.dollars, s)
    }

    fn on_discard_card(
        &mut self,
        card: &Card,
        selected: &Vec<Card>,
        dollars: &mut i64,
        rng: &mut RngState,
    ) -> (r: bool) {
        self.discard_all(card, selected, dollars)
    }

    open spec fn at_round_end(m: Engine, hands: HandsTable, game_over: bool, s: Streams) -> (
        bool,
        Engine,
        Streams,
    ) {
        let st = (Ending { e: m, saved: false, s }).from(hands, game_over, 0, m.jokers.len());
        (st.saved, st.e, st.s)
    }

    fn end_of_round(&mut self, hands: &HandsTable, game_over: bool, rng: &mut RngState) -> (r: bool) {
        self.end_all(hands, game_over, rng)
    }

    open spec fn on_round_card(m: Engine, card: Card, s: Streams) -> (
        Seq<CardEffect>,
        Engine,
        Streams,
    ) {
        (seq![], m, s)
    }

    fn end_of_round_card(&mut self, card: &Card, rng: &mut RngState) -> (r: Vec<CardEffect>) {
        let r: Vec<CardEffect> = Vec::new();
        assert(r@ =~= seq![]);
        r
    }

    open spec fn round_repetitions(m: Engine, card: Card, has_effects: bool) -> (u32, Engine) {
        (
            if has_effects {
                mimes(m.jokers, m.jokers.len())
            } else {
                0
            },
            m,
        )
    }

    fn end_of_round_card_repetitions(&mut self, card: &Card, has_effects: bool) -> (r: u32) {
        if has_effects {
            self.count_mimes()
        } else {
            0
        }
    }

    open spec fn payouts(m: Engine) -> (i64, Engine) {
        (paid_out(m, m.jokers.len()), m)
    }

    fn dollar_bonus(&mut self) -> (r: i64) {
        self.total_payout()
    }
}

} // verus!
