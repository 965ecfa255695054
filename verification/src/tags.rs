//! Tags, and what comes up at blind select.
use crate::blinds;
use crate::blinds::get_new_boss;
use crate::cards::HandType;
use crate::double::Double;
use crate::items;
use crate::jokers::effects;
use crate::making::alter;
use crate::registry::Key;
use crate::round;
use crate::run::{
    BlindStage, Offers, OrbitalHands, Record, Refusal, Reroll, Round, Run, RunError, RunModel,
    State, Track, Turn,
};
use crate::shop::{
    JokerArea, PackOffer, PackReturn, RunTag, ShopItem, ShopModel, TagContext, VoucherOffer,
};
use crate::text::same_text;
use vstd::prelude::*;

verus! {

// ---- orbital hands -------------------------------------------------------

/// The first entry of an ante from place `from` on.
pub open spec fn orbital_place(list: Seq<(i64, OrbitalHands)>, ante: i64, from: nat) -> Option<nat>
    decreases list.len() - from,
{
    if from >= list.len() {
        None
    } else if list[from as int].0 == ante {
        Some(from)
    } else {
        orbital_place(list, ante, from + 1)
    }
}

/// The hands of an ante; none before they are drawn.
pub open spec fn orbital_of(list: Seq<(i64, OrbitalHands)>, ante: i64) -> OrbitalHands {
    match orbital_place(list, ante, 0) {
        Some(i) => list[i as int].1,
        None => OrbitalHands { small: None, big: None, boss: None },
    }
}

/// The list with other hands for an ante.
pub open spec fn orbital_set(list: Seq<(i64, OrbitalHands)>, ante: i64, hands: OrbitalHands) -> Seq<
    (i64, OrbitalHands),
> {
    match orbital_place(list, ante, 0) {
        Some(i) => list.update(i as int, (ante, hands)),
        None => list.push((ante, hands)),
    }
}

impl OrbitalHands {
    /// The hand for a blind.
    pub open spec fn at(self, stage: BlindStage) -> Option<HandType> {
        match stage {
            BlindStage::Small => self.small,
            BlindStage::Big => self.big,
            BlindStage::Boss => self.boss,
        }
    }

    /// With another hand for a blind.
    pub open spec fn with(self, stage: BlindStage, ht: HandType) -> OrbitalHands {
        match stage {
            BlindStage::Small => OrbitalHands { small: Some(ht), ..self },
            BlindStage::Big => OrbitalHands { big: Some(ht), ..self },
            BlindStage::Boss => OrbitalHands { boss: Some(ht), ..self },
        }
    }

    fn get(&self, stage: BlindStage) -> (r: Option<HandType>)
        ensures
            r == self.at(stage),
    {
        match stage {
            BlindStage::Small => self.small,
            BlindStage::Big => self.big,
            BlindStage::Boss => self.boss,
        }
    }

    fn set(&mut self, stage: BlindStage, ht: HandType)
        ensures
            *final(self) == old(self).with(stage, ht),
    {
        match stage {
            BlindStage::Small => {
                self.small = Some(ht);
            },
            BlindStage::Big => {
                self.big = Some(ht);
            },
            BlindStage::Boss => {
                self.boss = Some(ht);
            },
        }
    }
}

impl RunModel {
    /// The hand that an Orbital Tag for a blind of this ante would raise.
    pub open spec fn orbital(self, stage: BlindStage) -> Option<HandType> {
        orbital_of(self.orbital_choices, self.track.ante).at(stage)
    }

    /// The hand for a blind of this ante is drawn, unless it was before.
    pub open spec fn orbital_drawn(self, stage: BlindStage) -> RunModel {
        let pool = effects::visible_hands(self.record.hands, None, 12);
        if self.orbital(stage) is Some || pool.len() == 0 {
            self
        } else {
            let ht = pool[self.s.place("orbital"@, pool.len())];
            let hands = orbital_of(self.orbital_choices, self.track.ante).with(stage, ht);
            RunModel {
                orbital_choices: orbital_set(self.orbital_choices, self.track.ante, hands),
                ..self.after("orbital"@)
            }
        }
    }

    /// The hands for the three blinds of this ante are drawn.
    pub open spec fn orbitals_drawn(self) -> RunModel {
        self.orbital_drawn(BlindStage::Small).orbital_drawn(BlindStage::Big).orbital_drawn(
            BlindStage::Boss,
        )
    }
}

impl Run {
    fn orbital_place(&self, ante: i64) -> (r: Option<usize>)
        ensures
            match r {
                Some(i) => i < self.orbital_choices.len() && orbital_place(
                    self.orbital_choices@,
                    ante,
                    0,
                ) == Some(i as nat),
                None => orbital_place(self.orbital_choices@, ante, 0) is None,
            },
    {
        let mut i: usize = 0;
        while i < self.orbital_choices.len()
            invariant
                i <= self.orbital_choices.len(),
                orbital_place(self.orbital_choices@, ante, 0) == orbital_place(
                    self.orbital_choices@,
                    ante,
                    i as nat,
                ),
            decreases self.orbital_choices.len() - i,
        {
            if self.orbital_choices[i].0 == ante {
                return Some(i);
            }
            i = i + 1;
        }
        None
    }

    fn orbital_hands(&self) -> (r: OrbitalHands)
        ensures
            r == orbital_of(self.orbital_choices@, self.track.ante),
    {
        match self.orbital_place(self.track.ante) {
            Some(i) => self.orbital_choices[i].1,
            None => OrbitalHands { small: None, big: None, boss: None },
        }
    }

    /// The hand that an Orbital Tag for a blind of this ante would raise.
    pub fn orbital_choice(&self, stage: BlindStage) -> (r: Option<HandType>)
        ensures
            r == self@.orbital(stage),
    {
        self.orbital_hands().get(stage)
    }

    fn roll_orbital(&mut self, stage: BlindStage)
        ensures
            final(self)@ == old(self)@.orbital_drawn(stage),
    {
        let mut hands = self.orbital_hands();
        if hands.get(stage).is_some() {
            return ;
        }
        let pool = effects::hand_pool(&self.record.hands, None);
        if pool.len() == 0 {
            return ;
        }
        let i: usize = items::element_index(&mut self.rng, "orbital", pool.len());
        hands.set(stage, pool[i]);
        let ante: i64 = self.track.ante;
        match self.orbital_place(ante) {
            Some(k) => {
                self.orbital_choices.set(k, (ante, hands));
            },
            None => {
                self.orbital_choices.push((ante, hands));
            },
        }
    }

    fn roll_orbital_choices(&mut self)
        ensures
            final(self)@ == old(self)@.orbitals_drawn(),
    {
        self.roll_orbital(BlindStage::Small);
        self.roll_orbital(BlindStage::Big);
        self.roll_orbital(BlindStage::Boss);
    }
}

// ---- holding tags --------------------------------------------------------

/// A tag that many times.
pub open spec fn repeated(tag: RunTag, n: nat) -> Seq<RunTag> {
    Seq::new(n, |i: int| tag)
}

impl RunModel {
    /// The run with one more tag; every Double Tag held turns into a copy.
    pub open spec fn with_tag(self, key: Key, orbital_hand: Option<HandType>) -> RunModel {
        let tag = RunTag { key, orbital_hand };
        if key@ == "tag_double"@ {
            RunModel { tags: self.tags.push(tag), ..self }
        } else {
            let kept = round::tags_but(self.tags, "tag_double"@, self.tags.len());
            RunModel {
                tags: kept + repeated(tag, (1 + self.tags.len() - kept.len()) as nat),
                ..self
            }
        }
    }

    /// A common joker of a Top-up Tag, if there is room.
    pub open spec fn topped_up(self) -> RunModel {
        if self.jokers.len() < self.limits.joker_slots {
            let (j, m) = self.joker_made(Some(Double::of(0)), false, "top", JokerArea::Direct);
            m.with_joker(j, round::disabling(true))
        } else {
            self
        }
    }

    /// The dollars, but at least 0 and at most `most`.
    pub open spec fn dollars_within(self, most: i64) -> i64 {
        if self.purse.dollars < 0 {
            0
        } else if self.purse.dollars > most {
            most
        } else {
            self.purse.dollars
        }
    }

    /// The run after an Orbital Tag.
    pub open spec fn orbited(self, hand: Option<HandType>) -> RunModel {
        match hand {
            Some(ht) => RunModel {
                record: Record { hands: self.record.hands.leveled_up(ht, 3), ..self.record },
                ..self
            },
            None => self,
        }
    }

    /// The run after a Juggle Tag.
    pub open spec fn juggled(self) -> RunModel {
        let before = match self.round.temp_handsize {
            Some(t) => t,
            None => 0,
        };
        RunModel {
            round: Round {
                hand_size: self.round.hand_size.wrapping_add(3),
                temp_handsize: Some(before.wrapping_add(3)),
                ..self.round
            },
            ..self
        }
    }

    /// The run after a D6 Tag.
    pub open spec fn d6_rolled(self) -> RunModel {
        (RunModel {
            offers: Offers { shop_d6ed: true, ..self.offers },
            reroll: Reroll { temp_cost: Some(0), ..self.reroll },
            ..self
        }).reroll_priced(true)
    }

    /// The run with a voucher laid out in the shop.
    pub open spec fn voucher_laid(self, key: Key, shop_voucher: bool) -> RunModel {
        let offer = VoucherOffer { key, sort_id: self.next_id(), shop_voucher };
        let m = self.numbered().using(key@);
        match m.shop {
            Some(shop) => RunModel {
                shop: Some(ShopModel { vouchers: shop.vouchers.push(offer), ..shop }),
                ..m
            },
            None => m,
        }
    }

    /// The run after a Coupon Tag: everything in the shop but vouchers is free.
    pub open spec fn couponed(self) -> RunModel {
        RunModel {
            offers: Offers { shop_free: true, ..self.offers },
            shop: match self.shop {
                Some(shop) => Some(
                    ShopModel {
                        jokers: shop.jokers.map_values(
                            |x: ShopItem| ShopItem { couponed: true, ..x },
                        ),
                        packs: shop.packs.map_values(
                            |p: PackOffer| PackOffer { couponed: true, ..p },
                        ),
                        ..shop
                    },
                ),
                None => None,
            },
            ..self
        }
    }

    /// What a tag does at some moment: the run after, and whether it acted.
    #[verifier::opaque]
    pub open spec fn tag_applied(self, tag: RunTag, ctx: TagContext) -> (bool, RunModel) {
        let k = tag.key@;
        match ctx {
            TagContext::Immediate => if k == "tag_top_up"@ {
                (true, self.topped_up().topped_up())
            } else if k == "tag_skip"@ {
                (true, self.paid(5i64.wrapping_mul(self.record.skips)))
            } else if k == "tag_garbage"@ {
                (true, self.paid(self.record.unused_discards))
            } else if k == "tag_handy"@ {
                (true, self.paid(self.record.hands_played_total))
            } else if k == "tag_economy"@ {
                (true, self.paid(self.dollars_within(40)))
            } else if k == "tag_orbital"@ {
                (true, self.orbited(tag.orbital_hand))
            } else {
                (false, self)
            },
            TagContext::RoundStartBonus => if k == "tag_juggle"@ {
                (true, self.juggled())
            } else {
                (false, self)
            },
            TagContext::ShopStart => if k == "tag_d_six"@ && !self.offers.shop_d6ed {
                (true, self.d6_rolled())
            } else {
                (false, self)
            },
            TagContext::VoucherAdd => if k == "tag_voucher"@ {
                let (key, m) = self.voucher_drawn(true);
                (true, m.voucher_laid(key, false))
            } else {
                (false, self)
            },
            TagContext::ShopFinalPass => if k == "tag_coupon"@ && !self.offers.shop_free {
                (true, self.couponed())
            } else {
                (false, self)
            },
        }
    }

    /// The tag in place `i` acts, and goes if it did; the place of the next.
    pub open spec fn tag_step(self, ctx: TagContext, i: nat) -> (RunModel, nat) {
        let (acted, m) = self.tag_applied(self.tags[i as int], ctx);
        if acted && i < m.tags.len() {
            (RunModel { tags: m.tags.remove(i as int), ..m }, i)
        } else {
            (m, i + 1)
        }
    }

    /// The tags from place `i` on act at some moment, at most `n` of them.
    pub open spec fn tags_stepped(self, ctx: TagContext, i: nat, n: nat) -> RunModel
        decreases n,
    {
        if n == 0 || i >= self.tags.len() {
            self
        } else {
            let (m, j) = self.tag_step(ctx, i);
            m.tags_stepped(ctx, j, (n - 1) as nat)
        }
    }

    /// The tags act at some moment.
    #[verifier::opaque]
    pub open spec fn tags_applied(self, ctx: TagContext) -> RunModel {
        self.tags_stepped(ctx, 0, self.tags.len())
    }
}

fn coupon_items(list: &mut Vec<ShopItem>)
    ensures
        final(list)@ == old(list)@.map_values(|x: ShopItem| ShopItem { couponed: true, ..x }),
{
    let ghost g = |x: ShopItem| ShopItem { couponed: true, ..x };
    let f = |x: ShopItem| -> (r: ShopItem)
        ensures
            r == (ShopItem { couponed: true, ..x }),
        { ShopItem { couponed: true, ..x } };
    alter(list, f, Ghost(g));
}

fn coupon_packs(list: &mut Vec<PackOffer>)
    ensures
        final(list)@ == old(list)@.map_values(|p: PackOffer| PackOffer { couponed: true, ..p }),
{
    let ghost g = |p: PackOffer| PackOffer { couponed: true, ..p };
    let f = |p: PackOffer| -> (r: PackOffer)
        ensures
            r == (PackOffer { couponed: true, ..p }),
        { PackOffer { couponed: true, ..p } };
    alter(list, f, Ghost(g));
}

impl Run {
    pub(crate) fn add_tag(&mut self, key: &'static str, orbital_hand: Option<HandType>)
        ensures
            final(self)@ == old(self)@.with_tag(key, orbital_hand),
    {
        let tag = RunTag { key, orbital_hand };
        if same_text(key, "tag_double") {
            self.tags.push(tag);
            return ;
        }
        let copies: usize = self.remove_tags("tag_double");
        self.tags.push(tag);
        let ghost kept = round::tags_but(old(self)@.tags, "tag_double"@, old(self)@.tags.len());
        assert(self.tags@ =~= kept + repeated(tag, 1));
        let mut k: usize = 0;
        while k < copies
            invariant
                k <= copies,
                self@ == (RunModel { tags: kept + repeated(tag, 1 + k as nat), ..old(self)@ }),
            decreases copies - k,
        {
            self.tags.push(tag);
            k = k + 1;
            assert(self.tags@ =~= kept + repeated(tag, 1 + k as nat));
        }
    }

    fn top_up(&mut self)
        ensures
            final(self)@ == old(self)@.topped_up(),
    {
        if self.jokers.len() < self.limits.joker_slots {
            let j = self.create_joker(Some(Double::from_i64(0)), false, "top", JokerArea::Direct);
            self.add_joker(j);
        }
    }

    pub(crate) fn dollars_within(&self, most: i64) -> (r: i64)
        ensures
            r == self@.dollars_within(most),
    {
        if self.purse.dollars < 0 {
            0
        } else if self.purse.dollars > most {
            most
        } else {
            self.purse.dollars
        }
    }

    fn pay(&mut self, n: i64)
        ensures
            final(self)@ == old(self)@.paid(n),
    {
        self.purse.dollars = self.purse.dollars.wrapping_add(n);
    }

    pub(crate) fn lay_voucher(&mut self, key: &'static str, shop_voucher: bool)
        ensures
            final(self)@ == old(self)@.voucher_laid(key, shop_voucher),
    {
        let sort_id: u32 = self.next_sort_id();
        self.add_used(key);
        if let Some(shop) = &mut self.shop {
            shop.vouchers.push(VoucherOffer { key, sort_id, shop_voucher });
        }
    }

    fn coupon(&mut self)
        ensures
            final(self)@ == old(self)@.couponed(),
    {
        self.offers.shop_free = true;
        if let Some(shop) = &mut self.shop {
            coupon_items(&mut shop.jokers);
            coupon_packs(&mut shop.packs);
        }
    }

    fn apply_one_tag(&mut self, tag: RunTag, ctx: TagContext) -> (r: bool)
        ensures
            (r, final(self)@) == old(self)@.tag_applied(tag, ctx),
    {
        proof {
            reveal(RunModel::tag_applied);
        }
        match ctx {
            TagContext::Immediate => {
                if same_text(tag.key, "tag_top_up") {
                    self.top_up();
                    self.top_up();
                    true
                } else if same_text(tag.key, "tag_skip") {
                    self.pay(5i64.wrapping_mul(self.record.skips));
                    true
                } else if same_text(tag.key, "tag_garbage") {
                    self.pay(self.record.unused_discards);
                    true
                } else if same_text(tag.key, "tag_handy") {
                    self.pay(self.record.hands_played_total);
                    true
                } else if same_text(tag.key, "tag_economy") {
                    self.pay(self.dollars_within(40));
                    true
                } else if same_text(tag.key, "tag_orbital") {
                    if let Some(ht) = tag.orbital_hand {
                        self.record.hands.level_up(ht, 3);
                    }
                    true
                } else {
                    false
                }
            },
            TagContext::RoundStartBonus => {
                if same_text(tag.key, "tag_juggle") {
                    let before: i64 = match self.round.temp_handsize {
                        Some(t) => t,
                        None => 0,
                    };
                    self.round.hand_size = self.round.hand_size.wrapping_add(3);
                    self.round.temp_handsize = Some(before.wrapping_add(3));
                    true
                } else {
                    false
                }
            },
            TagContext::ShopStart => {
                if same_text(tag.key, "tag_d_six") && !self.offers.shop_d6ed {
                    self.offers.shop_d6ed = true;
                    self.reroll.temp_cost = Some(0);
                    self.calculate_reroll_cost(true);
                    true
                } else {
                    false
                }
            },
            TagContext::VoucherAdd => {
                if same_text(tag.key, "tag_voucher") {
                    let key = self.next_voucher_key(true);
                    self.lay_voucher(key, false);
                    true
                } else {
                    false
                }
            },
            TagContext::ShopFinalPass => {
                if same_text(tag.key, "tag_coupon") && !self.offers.shop_free {
                    self.coupon();
                    true
                } else {
                    false
                }
            },
        }
    }

    pub(crate) fn apply_tags(&mut self, ctx: TagContext)
        ensures
            final(self)@ == old(self)@.tags_applied(ctx),
    {
        proof {
            reveal(RunModel::tags_applied);
        }
        let ghost goal = self@.tags_applied(ctx);
        let mut n: usize = self.tags.len();
        let mut i: usize = 0;
        while n > 0 && i < self.tags.len()
            invariant
                self@.tags_stepped(ctx, i as nat, n as nat) == goal,
            decreases n,
        {
            let tag = self.tags[i];
            let acted = self.apply_one_tag(tag, ctx);
            if acted && i < self.tags.len() {
                let _gone = self.tags.remove(i);
            } else if i < usize::MAX {
                i = i + 1;
            }
            n = n - 1;
        }
    }
}

// ---- blind select --------------------------------------------------------

/// The pack that a tag opens at blind select.
pub open spec fn tag_pack(key: Seq<char>) -> Option<Key> {
    if key == "tag_charm"@ {
        Some("p_arcana_mega_1")
    } else if key == "tag_meteor"@ {
        Some("p_celestial_mega_1")
    } else if key == "tag_ethereal"@ {
        Some("p_spectral_normal_1")
    } else if key == "tag_standard"@ {
        Some("p_standard_mega_1")
    } else if key == "tag_buffoon"@ {
        Some("p_buffoon_mega_1")
    } else {
        None
    }
}

fn pack_of_tag(key: &str) -> (r: Option<&'static str>)
    ensures
        r == tag_pack(key@),
{
    if same_text(key, "tag_charm") {
        Some("p_arcana_mega_1")
    } else if same_text(key, "tag_meteor") {
        Some("p_celestial_mega_1")
    } else if same_text(key, "tag_ethereal") {
        Some("p_spectral_normal_1")
    } else if same_text(key, "tag_standard") {
        Some("p_standard_mega_1")
    } else if same_text(key, "tag_buffoon") {
        Some("p_buffoon_mega_1")
    } else {
        None
    }
}

/// Whether a tag acts at blind select.
pub open spec fn is_choice_tag(key: Seq<char>) -> bool {
    tag_pack(key) is Some || key == "tag_boss"@
}

/// The first tag from place `from` on that acts at blind select.
pub open spec fn choice_tag(tags: Seq<RunTag>, from: nat) -> Option<nat>
    decreases tags.len() - from,
{
    if from >= tags.len() {
        None
    } else if is_choice_tag(tags[from as int].key@) {
        Some(from)
    } else {
        choice_tag(tags, from + 1)
    }
}

impl RunModel {
    /// Another boss is drawn.
    pub open spec fn boss_redrawn(self) -> RunModel {
        let key = blinds::next_boss(self.s, self.bosses_used, self.track.ante, 8);
        RunModel {
            track: Track { boss_choice: key, ..self.track },
            bosses_used: blinds::counted(self.bosses_used, key@),
            ..self.after("boss"@)
        }
    }

    /// The tags that wait for blind select act: Boss Tags until one opens a
    /// pack.
    pub open spec fn choices_tagged(self) -> RunModel
        decreases self.tags.len(),
    {
        match choice_tag(self.tags, 0) {
            None => self,
            Some(i) => if i >= self.tags.len() {
                self
            } else {
                let key = self.tags[i as int].key@;
                let m = RunModel { tags: self.tags.remove(i as int), ..self };
                match tag_pack(key) {
                    Some(pack) => m.numbered().pack_opened(pack, PackReturn::BlindSelect),
                    None => (RunModel {
                        track: Track { boss_rerolled: true, ..m.track },
                        ..m
                    }).boss_redrawn().choices_tagged(),
                }
            },
        }
    }

    /// The run at blind select.
    #[verifier::opaque]
    pub open spec fn at_blind_select(self) -> RunModel {
        (RunModel { state: State::BlindSelect, ..self }).orbitals_drawn().tags_applied(
            TagContext::Immediate,
        ).choices_tagged()
    }

    /// Skipping the blind for its tag.
    #[verifier::opaque]
    pub open spec fn skip(self) -> Turn {
        if self.state != State::BlindSelect {
            Turn::refused(self, Refusal::WrongState)
        } else if self.track.blind_on_deck == BlindStage::Boss {
            Turn::refused(self, Refusal::BadSlot("cannot skip the boss"@))
        } else {
            let small = self.track.blind_on_deck == BlindStage::Small;
            let key = if small {
                self.offers.blind_tag_small
            } else {
                self.offers.blind_tag_big
            };
            let hand = if key@ == "tag_orbital"@ {
                self.orbital(self.track.blind_on_deck)
            } else {
                None
            };
            let m = (RunModel {
                record: Record { skips: self.record.skips.wrapping_add(1), ..self.record },
                ..self
            }).with_tag(key, hand);
            let track = if small {
                Track { small_skipped: true, blind_on_deck: BlindStage::Big, ..m.track }
            } else {
                Track { big_skipped: true, blind_on_deck: BlindStage::Boss, ..m.track }
            };
            Turn::done(
                (RunModel { track, ..m }).tags_applied(TagContext::Immediate).choices_tagged(),
            )
        }
    }

    /// Whether the boss can be drawn anew.
    pub open spec fn can_reroll_boss(self) -> bool {
        self.state == State::BlindSelect && self.funds().wrapping_sub(10) >= 0 && (self.redeemed(
            "v_retcon",
        ) || (self.redeemed("v_directors_cut") && !self.track.boss_rerolled))
    }

    /// Drawing the boss anew.
    #[verifier::opaque]
    pub open spec fn reroll_boss(self) -> Turn {
        if self.state != State::BlindSelect {
            Turn::refused(self, Refusal::WrongState)
        } else if !self.can_reroll_boss() {
            Turn::refused(self, Refusal::CannotUse("boss reroll unavailable"@))
        } else {
            Turn::done(
                (RunModel {
                    track: Track { boss_rerolled: true, ..self.track },
                    ..self
                }).charged(10).boss_redrawn().choices_tagged(),
            )
        }
    }
}

impl Run {
    pub(crate) fn redraw_boss(&mut self)
        ensures
            final(self)@ == old(self)@.boss_redrawn(),
    {
        let boss = get_new_boss(&mut self.rng, &mut self.bosses_used, self.track.ante, 8);
        self.track.boss_choice = boss;
    }

    fn choice_tag(&self) -> (r: Option<usize>)
        ensures
            match r {
                Some(i) => i < self.tags.len() && choice_tag(self.tags@, 0) == Some(i as nat),
                None => choice_tag(self.tags@, 0) is None,
            },
    {
        let mut i: usize = 0;
        while i < self.tags.len()
            invariant
                i <= self.tags.len(),
                choice_tag(self.tags@, 0) == choice_tag(self.tags@, i as nat),
            decreases self.tags.len() - i,
        {
            if pack_of_tag(self.tags[i].key).is_some() || same_text(self.tags[i].key, "tag_boss") {
                return Some(i);
            }
            i = i + 1;
        }
        None
    }

    pub(crate) fn apply_new_blind_choice_tags(&mut self)
        ensures
            final(self)@ == old(self)@.choices_tagged(),
    {
        let ghost goal = self@.choices_tagged();
        loop
            invariant
                self@.choices_tagged() == goal,
                goal == old(self)@.choices_tagged(),
            decreases self.tags.len(),
        {
            match self.choice_tag() {
                None => {
                    return ;
                },
                Some(i) => {
                    let tag = self.tags.remove(i);
                    match pack_of_tag(tag.key) {
                        Some(pack) => {
                            let _id = self.next_sort_id();
                            self.open_pack(pack, PackReturn::BlindSelect);
                            return ;
                        },
                        None => {
                            self.track.boss_rerolled = true;
                            self.redraw_boss();
                        },
                    }
                },
            }
        }
    }

    pub(crate) fn enter_blind_select(&mut self)
        ensures
            final(self)@ == old(self)@.at_blind_select(),
    {
        proof {
            reveal(RunModel::at_blind_select);
        }
        self.state = State::BlindSelect;
        self.roll_orbital_choices();
        self.apply_tags(TagContext::Immediate);
        self.apply_new_blind_choice_tags();
    }

    /// Skip the Small or the Big Blind for its tag.
    pub fn skip_blind(&mut self) -> (r: Result<(), RunError>)
        ensures
            final(self)@ == old(self)@.skip().run,
            old(self)@.skip().tells(r),
    {
        proof {
            reveal(RunModel::skip);
        }
        if self.state != State::BlindSelect {
            return Err(RunError::WrongState);
        }
        let stage = self.track.blind_on_deck;
        if stage == BlindStage::Boss {
            return Err(RunError::BadSlot("cannot skip the boss".to_owned()));
        }
        let key = if stage == BlindStage::Small {
            self.offers.blind_tag_small
        } else {
            self.offers.blind_tag_big
        };
        let hand = if same_text(key, "tag_orbital") {
            self.orbital_choice(stage)
        } else {
            None
        };
        self.record.skips = self.record.skips.wrapping_add(1);
        self.add_tag(key, hand);
        if stage == BlindStage::Small {
            self.track.small_skipped = true;
            self.track.blind_on_deck = BlindStage::Big;
        } else {
            self.track.big_skipped = true;
            self.track.blind_on_deck = BlindStage::Boss;
        }
        self.apply_tags(TagContext::Immediate);
        self.apply_new_blind_choice_tags();
        Ok(())
    }

    /// Whether the boss can be drawn anew.
    pub fn can_reroll_boss(&self) -> (r: bool)
        ensures
            r == self@.can_reroll_boss(),
    {
        self.state == State::BlindSelect && self.funds().wrapping_sub(10) >= 0 && (self.redeemed(
            "v_retcon",
        ) || (self.redeemed("v_directors_cut") && !self.track.boss_rerolled))
    }

    /// Pay 10 dollars to draw the boss anew.
    pub fn reroll_boss(&mut self) -> (r: Result<(), RunError>)
        ensures
            final(self)@ == old(self)@.reroll_boss().run,
            old(self)@.reroll_boss().tells(r),
    {
        proof {
            reveal(RunModel::reroll_boss);
        }
        if self.state != State::BlindSelect {
            return Err(RunError::WrongState);
        }
        if !self.can_reroll_boss() {
            return Err(RunError::CannotUse("boss reroll unavailable".to_owned()));
        }
        self.track.boss_rerolled = true;
        self.purse.dollars = self.purse.dollars.wrapping_sub(10);
        self.redraw_boss();
        self.apply_new_blind_choice_tags();
        Ok(())
    }
}

} // verus!
