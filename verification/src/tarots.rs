//! Using Tarot, Planet and Spectral cards.
use crate::cards;
use crate::cards::{Card, Edition, Enhancement, Rank, Seal, Suit};
use crate::deck;
use crate::deck::pseudoshuffle;
use crate::double::Double;
use crate::items;
use crate::items::{ConsumableMeta, ConsumableSet, JokerId, PackKind};
use crate::making;
use crate::making::{alter, find_number, numbers_of_cards, pick_number};
use crate::order;
use crate::play;
use crate::play::{all_distinct, list_of, sort_places};
use crate::registry;
use crate::registry::Key;
use crate::round;
use crate::run::{Run, RunModel, State};
use crate::scoring;
use crate::shop::OwnedJoker;
use crate::text;
use crate::text::{join2, same_text, with_count};
use vstd::prelude::*;

verus! {

// ---- when a consumable can be used ---------------------------------------

/// The numbers of the jokers among the first `n` without an edition.
pub open spec fn plain_ids(jokers: Seq<OwnedJoker>, n: nat) -> Seq<u32>
    decreases n,
{
    if n == 0 {
        seq![]
    } else {
        let rest = plain_ids(jokers, (n - 1) as nat);
        if jokers[n - 1].edition == Edition::Plain {
            rest.push(jokers[n - 1].sort_id)
        } else {
            rest
        }
    }
}

pub(crate) fn numbers_of_plain(jokers: &Vec<OwnedJoker>) -> (r: Vec<u32>)
    ensures
        r@ == plain_ids(jokers@, jokers@.len()),
{
    let mut ids: Vec<u32> = Vec::new();
    let mut i: usize = 0;
    while i < jokers.len()
        invariant
            i <= jokers.len(),
            ids@ == plain_ids(jokers@, i as nat),
        decreases jokers.len() - i,
    {
        if jokers[i].edition == Edition::Plain {
            ids.push(jokers[i].sort_id);
        }
        i = i + 1;
    }
    ids
}

/// Whether a text is one of two.
pub open spec fn one_of2(key: Seq<char>, a: Key, b: Key) -> bool {
    key == a@ || key == b@
}

/// Whether a text is one of three.
pub open spec fn one_of3(key: Seq<char>, a: Key, b: Key, c: Key) -> bool {
    key == a@ || key == b@ || key == c@
}

fn is_one_of2(key: &str, a: &'static str, b: &'static str) -> (r: bool)
    ensures
        r == one_of2(key@, a, b),
{
    same_text(key, a) || same_text(key, b)
}

fn is_one_of3(key: &str, a: &'static str, b: &'static str, c: &'static str) -> (r: bool)
    ensures
        r == one_of3(key@, a, b, c),
{
    same_text(key, a) || same_text(key, b) || same_text(key, c)
}

/// Whether a card works on all of the hand.
pub open spec fn works_on_hand(key: Seq<char>) -> bool {
    one_of3(key, "c_familiar", "c_grim", "c_incantation") || one_of3(
        key,
        "c_immolate",
        "c_sigil",
        "c_ouija",
    )
}

/// The least and the greatest number of targets.
pub open spec fn least_targets(meta: ConsumableMeta) -> nat {
    if meta.min_highlighted < 1 {
        1
    } else {
        (meta.min_highlighted as usize) as nat
    }
}

pub open spec fn most_targets(meta: ConsumableMeta) -> nat {
    if meta.max_highlighted < 0 {
        0
    } else if meta.max_highlighted < 5 {
        meta.max_highlighted as nat
    } else {
        5
    }
}

fn min_targets(meta: &ConsumableMeta) -> (r: usize)
    ensures
        r == least_targets(*meta),
{
    if meta.min_highlighted < 1 {
        1
    } else {
        meta.min_highlighted as usize
    }
}

fn max_targets(meta: &ConsumableMeta) -> (r: usize)
    ensures
        r == most_targets(*meta),
{
    if meta.max_highlighted < 0 {
        0
    } else if meta.max_highlighted < 5 {
        meta.max_highlighted as usize
    } else {
        5
    }
}

impl RunModel {
    /// Whether there is a hand to choose targets from.
    pub open spec fn targeting(self) -> bool {
        match self.state {
            State::SelectingHand => true,
            State::PackOpen => match self.pack {
                Some(p) => p.kind == PackKind::Arcana || p.kind == PackKind::Spectral || p.kind
                    == PackKind::Celestial,
                None => false,
            },
            _ => false,
        }
    }

    /// Whether a consumable of a key is held.
    pub open spec fn holds(self, key: Seq<char>) -> bool {
        exists|i: int| 0 <= i < self.consumables.len() && (#[trigger] self.consumables[i]).key@ == key
    }

    pub open spec fn consumables_full(self) -> bool {
        self.consumables.len() >= self.limits.consumable_slots
    }

    pub open spec fn jokers_full(self) -> bool {
        self.jokers.len() >= self.limits.joker_slots
    }

    /// Whether targets are places in hand, each named once.
    pub open spec fn targets_in_hand(self, targets: Seq<usize>) -> bool {
        targets.no_duplicates() && forall|i: int|
            0 <= i < targets.len() ==> #[trigger] targets[i] < self.hand.len()
    }

    /// Why a consumable that is held cannot be used on some targets, if it
    /// cannot.
    #[verifier::opaque]
    pub open spec fn unusable(self, key: Seq<char>, targets: Seq<usize>) -> Option<Seq<char>> {
        if self.state == State::GameOver || self.state == State::Won {
            Some("terminal state"@)
        } else if !self.targets_in_hand(targets) {
            Some("bad targets"@)
        } else {
            match items::consumable_named(key) {
                None => Some("unknown consumable"@),
                Some((meta, set)) => self.hindered(key, meta, set, targets),
            }
        }
    }

    /// What stands in the way of using a consumable, if anything does.
    pub open spec fn hindered(
        self,
        key: Seq<char>,
        meta: ConsumableMeta,
        set: ConsumableSet,
        targets: Seq<usize>,
    ) -> Option<Seq<char>> {
        let plain = plain_ids(self.jokers, self.jokers.len());
        if one_of2(key, "c_high_priestess", "c_emperor") {
            if !self.holds(key) && self.consumables_full() {
                Some("no consumable space"@)
            } else {
                None
            }
        } else if one_of3(key, "c_hermit", "c_temperance", "c_black_hole") || set
            == ConsumableSet::Planet {
            None
        } else if one_of3(key, "c_wheel_of_fortune", "c_ectoplasm", "c_hex") {
            if plain.len() == 0 {
                Some("no editionless joker"@)
            } else {
                None
            }
        } else if key == "c_ankh"@ {
            if self.jokers.len() == 0 || self.limits.joker_slots <= 1 {
                Some("needs a joker and >1 slots"@)
            } else if self.jokers_full() {
                Some("joker slots full"@)
            } else {
                None
            }
        } else if key == "c_aura"@ {
            if self.targeting() && targets.len() == 1 && self.hand[targets[0] as int].edition
                == Edition::Plain {
                None
            } else {
                Some("needs 1 edition-less highlighted card"@)
            }
        } else if key == "c_fool"@ {
            if !self.holds(key) && self.consumables_full() {
                Some("no consumable space"@)
            } else if self.record.last_tarot_planet matches Some(k) && k@ != "c_fool"@ {
                None
            } else {
                Some("nothing to copy"@)
            }
        } else if one_of3(key, "c_judgement", "c_soul", "c_wraith") {
            if self.jokers_full() {
                Some("joker slots full"@)
            } else {
                None
            }
        } else if meta.max_highlighted > 0 {
            if !self.targeting() {
                Some("no hand to target"@)
            } else if targets.len() > most_targets(meta) || targets.len() < least_targets(meta) {
                Some(
                    "needs "@ + text::decimal(least_targets(meta) as int) + "..="@ + text::decimal(
                        most_targets(meta) as int,
                    ) + " targets, got "@ + text::decimal(targets.len() as int),
                )
            } else {
                None
            }
        } else if works_on_hand(key) {
            if self.targeting() && self.hand.len() > 1 {
                None
            } else {
                Some("needs a hand of 2+ cards"@)
            }
        } else {
            Some(key + " has no usable effect here"@)
        }
    }

    /// Whether there are targets with which a consumable can be used.
    #[verifier::opaque]
    pub open spec fn has_use(self, key: Seq<char>) -> bool {
        self.unusable(key, seq![]) is None || match items::consumable_named(key) {
            None => false,
            Some((meta, _)) => if key == "c_aura"@ {
                self.targeting() && exists|i: int|
                    0 <= i < self.hand.len() && (#[trigger] self.hand[i]).edition == Edition::Plain
            } else {
                meta.max_highlighted > 0 && self.targeting() && self.hand.len() >= least_targets(
                    meta,
                )
            },
        }
    }
}

impl Run {
    fn targeting_state(&self) -> (r: bool)
        ensures
            r == self@.targeting(),
    {
        if self.state == State::SelectingHand {
            return true;
        }
        if self.state != State::PackOpen {
            return false;
        }
        match &self.pack {
            Some(p) => p.kind == PackKind::Arcana || p.kind == PackKind::Spectral || p.kind
                == PackKind::Celestial,
            None => false,
        }
    }

    fn holds(&self, key: &str) -> (r: bool)
        ensures
            r == self@.holds(key@),
    {
        let mut i: usize = 0;
        while i < self.consumables.len()
            invariant
                i <= self.consumables.len(),
                forall|k: int| 0 <= k < i ==> (#[trigger] self.consumables@[k]).key@ != key@,
            decreases self.consumables.len() - i,
        {
            if same_text(self.consumables[i].key, key) {
                assert(self@.consumables[i as int].key@ == key@);
                return true;
            }
            i = i + 1;
        }
        false
    }

    fn targets_in_hand(&self, targets: &Vec<usize>) -> (r: bool)
        ensures
            r == self@.targets_in_hand(targets@),
    {
        if !all_distinct(targets) {
            return false;
        }
        let mut i: usize = 0;
        while i < targets.len()
            invariant
                i <= targets.len(),
                forall|k: int| 0 <= k < i ==> #[trigger] targets@[k] < self.hand@.len(),
            decreases targets.len() - i,
        {
            if targets[i] >= self.hand.len() {
                return false;
            }
            i = i + 1;
        }
        true
    }

    fn hindrance(
        &self,
        key: &str,
        meta: &ConsumableMeta,
        set: ConsumableSet,
        targets: &Vec<usize>,
    ) -> (r: Result<(), String>)
        requires
            self@.targets_in_hand(targets@),
        ensures
            match r {
                Ok(_) => self@.hindered(key@, *meta, set, targets@) is None,
                Err(e) => self@.hindered(key@, *meta, set, targets@) == Some(e@),
            },
    {
        let full = self.consumables.len() >= self.limits.consumable_slots;
        let jokers_full = self.jokers.len() >= self.limits.joker_slots;
        if is_one_of2(key, "c_high_priestess", "c_emperor") {
            if !self.holds(key) && full {
                return Err("no consumable space".to_owned());
            }
        } else if is_one_of3(key, "c_hermit", "c_temperance", "c_black_hole") || set
            == ConsumableSet::Planet {
        } else if is_one_of3(key, "c_wheel_of_fortune", "c_ectoplasm", "c_hex") {
            if numbers_of_plain(&self.jokers).len() == 0 {
                return Err("no editionless joker".to_owned());
            }
        } else if same_text(key, "c_ankh") {
            if self.jokers.len() == 0 || self.limits.joker_slots <= 1 {
                return Err("needs a joker and >1 slots".to_owned());
            }
            if jokers_full {
                return Err("joker slots full".to_owned());
            }
        } else if same_text(key, "c_aura") {
            let fits = self.targeting_state() && targets.len() == 1
                && self.hand[targets[0]].edition == Edition::Plain;
            if !fits {
                return Err("needs 1 edition-less highlighted card".to_owned());
            }
        } else if same_text(key, "c_fool") {
            if !self.holds(key) && full {
                return Err("no consumable space".to_owned());
            }
            let copies = match self.record.last_tarot_planet {
                Some(k) => !same_text(k, "c_fool"),
                None => false,
            };
            if !copies {
                return Err("nothing to copy".to_owned());
            }
        } else if is_one_of3(key, "c_judgement", "c_soul", "c_wraith") {
            if jokers_full {
                return Err("joker slots full".to_owned());
            }
        } else if meta.max_highlighted > 0 {
            if !self.targeting_state() {
                return Err("no hand to target".to_owned());
            }
            let most: usize = max_targets(meta);
            let least: usize = min_targets(meta);
            if targets.len() > most || targets.len() < least {
                let a = with_count("needs ", least);
                let b = with_count(join2(a.as_str(), "..=").as_str(), most);
                let c = with_count(join2(b.as_str(), " targets, got ").as_str(), targets.len());
                return Err(c);
            }
        } else if is_one_of3(key, "c_familiar", "c_grim", "c_incantation") || is_one_of3(
            key,
            "c_immolate",
            "c_sigil",
            "c_ouija",
        ) {
            if !(self.targeting_state() && self.hand.len() > 1) {
                return Err("needs a hand of 2+ cards".to_owned());
            }
        } else {
            return Err(join2(key, " has no usable effect here"));
        }
        Ok(())
    }

    pub(crate) fn can_use_on(&self, key: &str, targets: &Vec<usize>) -> (r: Result<(), String>)
        ensures
            match r {
                Ok(_) => self@.unusable(key@, targets@) is None,
                Err(e) => self@.unusable(key@, targets@) == Some(e@),
            },
    {
        proof {
            reveal(RunModel::unusable);
        }
        if self.state == State::GameOver || self.state == State::Won {
            return Err("terminal state".to_owned());
        }
        if !self.targets_in_hand(targets) {
            return Err("bad targets".to_owned());
        }
        match items::consumable_by_key(key) {
            None => Err("unknown consumable".to_owned()),
            Some((meta, set)) => self.hindrance(key, &meta, set, targets),
        }
    }

    /// Whether a consumable can be used on the cards in some places of the
    /// hand; if not, why.
    pub fn consumable_can_use(&self, key: &str, targets: &[usize]) -> (r: Result<(), String>)
        ensures
            match r {
                Ok(_) => self@.unusable(key@, targets@) is None,
                Err(e) => self@.unusable(key@, targets@) == Some(e@),
            },
    {
        let list = list_of(targets);
        self.can_use_on(key, &list)
    }

    /// Whether there are targets with which a consumable can be used.
    pub fn consumable_has_any_use(&self, key: &str) -> (r: bool)
        ensures
            r == self@.has_use(key@),
    {
        proof {
            reveal(RunModel::has_use);
        }
        let none: Vec<usize> = Vec::new();
        assert(none@ =~= seq![]);
        if self.can_use_on(key, &none).is_ok() {
            return true;
        }
        match items::consumable_by_key(key) {
            None => false,
            Some((meta, _)) => {
                if same_text(key, "c_aura") {
                    if !self.targeting_state() {
                        return false;
                    }
                    let mut i: usize = 0;
                    while i < self.hand.len()
                        invariant
                            i <= self.hand.len(),
                            key@ == "c_aura"@,
                            items::consumable_named(key@) == Some((meta, set_of(key@))),
                            self@.targeting(),
                            self@.unusable(key@, seq![]) is Some,
                            forall|k: int|
                                0 <= k < i ==> (#[trigger] self.hand@[k]).edition != Edition::Plain,
                        decreases self.hand.len() - i,
                    {
                        if self.hand[i].edition == Edition::Plain {
                            proof {
                                reveal(RunModel::has_use);
                                assert(self@.hand[i as int].edition == Edition::Plain);
                            }
                            return true;
                        }
                        i = i + 1;
                    }
                    return false;
                }
                meta.max_highlighted > 0 && self.targeting_state() && self.hand.len()
                    >= min_targets(&meta)
            },
        }
    }
}

/// The set of a consumable.
pub open spec fn set_of(key: Seq<char>) -> ConsumableSet {
    match items::consumable_named(key) {
        Some((_, set)) => set,
        None => ConsumableSet::Tarot,
    }
}

// ---- what a consumable does to cards in hand -----------------------------

/// A hand with the card in one place changed.
pub open spec fn changed_at(hand: Seq<Card>, i: usize, f: spec_fn(Card) -> Card) -> Seq<Card> {
    if i < hand.len() {
        hand.update(i as int, f(hand[i as int]))
    } else {
        hand
    }
}

/// A hand with the cards in the first `n` of some places changed.
pub open spec fn changed(
    hand: Seq<Card>,
    places: Seq<usize>,
    f: spec_fn(Card) -> Card,
    n: nat,
) -> Seq<Card>
    decreases n,
{
    if n == 0 {
        hand
    } else {
        changed_at(changed(hand, places, f, (n - 1) as nat), places[n - 1], f)
    }
}

fn change_cards<F: Fn(Card) -> Card>(
    hand: &mut Vec<Card>,
    places: &Vec<usize>,
    f: F,
    Ghost(g): Ghost<spec_fn(Card) -> Card>,
)
    requires
        forall|x: Card| call_requires(f, (x,)),
        forall|x: Card, y: Card| call_ensures(f, (x,), y) ==> y == g(x),
    ensures
        final(hand)@ == changed(old(hand)@, places@, g, places@.len()),
{
    let mut k: usize = 0;
    while k < places.len()
        invariant
            k <= places.len(),
            forall|x: Card| call_requires(f, (x,)),
            forall|x: Card, y: Card| call_ensures(f, (x,), y) ==> y == g(x),
            hand@ == changed(old(hand)@, places@, g, k as nat),
        decreases places.len() - k,
    {
        let i: usize = places[k];
        if i < hand.len() {
            let x = f(hand[i]);
            hand.set(i, x);
        }
        k = k + 1;
    }
}

/// The enhancement that a card gives to its targets.
pub open spec fn given_enhancement(key: Seq<char>) -> Option<Enhancement> {
    if key == "c_magician"@ {
        Some(Enhancement::Lucky)
    } else if key == "c_empress"@ {
        Some(Enhancement::Mult)
    } else if key == "c_heirophant"@ {
        Some(Enhancement::Bonus)
    } else if key == "c_lovers"@ {
        Some(Enhancement::Wild)
    } else if key == "c_chariot"@ {
        Some(Enhancement::Steel)
    } else if key == "c_justice"@ {
        Some(Enhancement::Glass)
    } else if key == "c_devil"@ {
        Some(Enhancement::Gold)
    } else if key == "c_tower"@ {
        Some(Enhancement::Stone)
    } else {
        None
    }
}

/// The suit that a card turns its targets to.
pub open spec fn given_suit(key: Seq<char>) -> Option<Suit> {
    if key == "c_star"@ {
        Some(Suit::Diamonds)
    } else if key == "c_moon"@ {
        Some(Suit::Clubs)
    } else if key == "c_sun"@ {
        Some(Suit::Hearts)
    } else if key == "c_world"@ {
        Some(Suit::Spades)
    } else {
        None
    }
}

/// The seal that a card gives to its target.
pub open spec fn given_seal(key: Seq<char>) -> Option<Seal> {
    if key == "c_talisman"@ {
        Some(Seal::Gold)
    } else if key == "c_deja_vu"@ {
        Some(Seal::Red)
    } else if key == "c_trance"@ {
        Some(Seal::Blue)
    } else if key == "c_medium"@ {
        Some(Seal::Purple)
    } else {
        None
    }
}

fn enhancement_given(key: &str) -> (r: Option<Enhancement>)
    ensures
        r == given_enhancement(key@),
{
    if same_text(key, "c_magician") {
        Some(Enhancement::Lucky)
    } else if same_text(key, "c_empress") {
        Some(Enhancement::Mult)
    } else if same_text(key, "c_heirophant") {
        Some(Enhancement::Bonus)
    } else if same_text(key, "c_lovers") {
        Some(Enhancement::Wild)
    } else if same_text(key, "c_chariot") {
        Some(Enhancement::Steel)
    } else if same_text(key, "c_justice") {
        Some(Enhancement::Glass)
    } else if same_text(key, "c_devil") {
        Some(Enhancement::Gold)
    } else if same_text(key, "c_tower") {
        Some(Enhancement::Stone)
    } else {
        None
    }
}

fn suit_given(key: &str) -> (r: Option<Suit>)
    ensures
        r == given_suit(key@),
{
    if same_text(key, "c_star") {
        Some(Suit::Diamonds)
    } else if same_text(key, "c_moon") {
        Some(Suit::Clubs)
    } else if same_text(key, "c_sun") {
        Some(Suit::Hearts)
    } else if same_text(key, "c_world") {
        Some(Suit::Spades)
    } else {
        None
    }
}

fn seal_given(key: &str) -> (r: Option<Seal>)
    ensures
        r == given_seal(key@),
{
    if same_text(key, "c_talisman") {
        Some(Seal::Gold)
    } else if same_text(key, "c_deja_vu") {
        Some(Seal::Red)
    } else if same_text(key, "c_trance") {
        Some(Seal::Blue)
    } else if same_text(key, "c_medium") {
        Some(Seal::Purple)
    } else {
        None
    }
}

/// The next rank; the Ace is followed by the 2.
pub open spec fn next_rank(r: Rank) -> Rank {
    if r.0 == 14 {
        Rank(2)
    } else if r.0 >= 13 {
        Rank(14)
    } else {
        Rank((r.0 + 1) as u8)
    }
}

fn rank_after(r: Rank) -> (q: Rank)
    ensures
        q == next_rank(r),
{
    if r.0 == 14 {
        Rank(2)
    } else if r.0 >= 13 {
        Rank(14)
    } else {
        Rank(r.0 + 1)
    }
}

/// The greatest of the first `n` places.
pub open spec fn rightmost(places: Seq<usize>, n: nat) -> usize
    decreases n,
{
    if n <= 1 {
        places[0]
    } else {
        let best = rightmost(places, (n - 1) as nat);
        if places[n - 1] > best {
            places[n - 1]
        } else {
            best
        }
    }
}

/// A card turned into another, but for its number and its state in the round.
pub open spec fn turned_into(src: Card) -> spec_fn(Card) -> Card {
    |c: Card|
        Card {
            rank: src.rank,
            suit: src.suit,
            enhancement: src.enhancement,
            edition: src.edition,
            seal: src.seal,
            perma_bonus: src.perma_bonus,
            ..c
        }
}

impl RunModel {
    /// The run with the cards in some places of the hand changed.
    pub open spec fn with_changed(self, targets: Seq<usize>, f: spec_fn(Card) -> Card) -> RunModel {
        RunModel { hand: changed(self.hand, targets, f, targets.len()), ..self }
    }

    /// The first target only.
    pub open spec fn first_changed(self, targets: Seq<usize>, f: spec_fn(Card) -> Card) -> RunModel {
        if targets.len() > 0 {
            RunModel { hand: changed_at(self.hand, targets[0], f), ..self }
        } else {
            self
        }
    }

    /// The cards that change their targets.
    #[verifier::opaque]
    pub open spec fn target_effect(self, key: Seq<char>, targets: Seq<usize>) -> Option<RunModel> {
        if given_enhancement(key) is Some {
            let enhancement = given_enhancement(key)->0;
            Some(self.with_changed(targets, |c: Card| Card { enhancement, ..c }))
        } else if given_suit(key) is Some {
            let suit = given_suit(key)->0;
            Some(self.with_changed(targets, |c: Card| Card { suit, ..c }))
        } else if given_seal(key) is Some {
            let seal = given_seal(key)->0;
            Some(self.first_changed(targets, |c: Card| Card { seal, ..c }))
        } else if key == "c_death"@ {
            let right = rightmost(targets, targets.len());
            if targets.len() > 0 && right < self.hand.len() {
                Some(self.with_changed(targets, turned_into(self.hand[right as int])))
            } else {
                Some(self)
            }
        } else if key == "c_strength"@ {
            Some(self.with_changed(targets, |c: Card| Card { rank: next_rank(c.rank), ..c }))
        } else if key == "c_aura"@ {
            let edition = items::polled_edition(
                self.s.unit("aura"@),
                Double::of(1),
                true,
                true,
                self.rates.edition,
            );
            Some(self.after("aura"@).first_changed(targets, |c: Card| Card { edition, ..c }))
        } else {
            None
        }
    }
}

impl Run {
    fn change_first<F: Fn(Card) -> Card>(
        &mut self,
        targets: &Vec<usize>,
        f: F,
        Ghost(g): Ghost<spec_fn(Card) -> Card>,
    )
        requires
            forall|x: Card| call_requires(f, (x,)),
            forall|x: Card, y: Card| call_ensures(f, (x,), y) ==> y == g(x),
        ensures
            final(self)@ == old(self)@.first_changed(targets@, g),
    {
        if targets.len() > 0 {
            let i: usize = targets[0];
            if i < self.hand.len() {
                let x = f(self.hand[i]);
                self.hand.set(i, x);
            }
        }
    }

    fn use_death(&mut self, targets: &Vec<usize>)
        ensures
            final(self)@ == if targets@.len() > 0 && rightmost(targets@, targets@.len())
                < old(self)@.hand.len() {
                old(self)@.with_changed(
                    targets@,
                    turned_into(old(self)@.hand[rightmost(targets@, targets@.len()) as int]),
                )
            } else {
                old(self)@
            },
    {
        if targets.len() == 0 {
            return ;
        }
        let mut right: usize = targets[0];
        let mut k: usize = 1;
        while k < targets.len()
            invariant
                1 <= k <= targets.len(),
                right == rightmost(targets@, k as nat),
            decreases targets.len() - k,
        {
            if targets[k] > right {
                right = targets[k];
            }
            k = k + 1;
        }
        if right < self.hand.len() {
            let src = self.hand[right];
            let f = |c: Card| -> (r: Card)
                ensures
                    r == turned_into(src)(c),
                {
                    Card {
                        rank: src.rank,
                        suit: src.suit,
                        enhancement: src.enhancement,
                        edition: src.edition,
                        seal: src.seal,
                        perma_bonus: src.perma_bonus,
                        ..c
                    }
                };
            change_cards(&mut self.hand, targets, f, Ghost(turned_into(src)));
        }
    }

    pub(crate) fn use_on_targets(&mut self, key: &str, targets: &Vec<usize>) -> (r: bool)
        ensures
            match old(self)@.target_effect(key@, targets@) {
                Some(m) => r && final(self)@ == m,
                None => !r && final(self)@ == old(self)@,
            },
    {
        proof {
            reveal(RunModel::target_effect);
        }
        if let Some(enhancement) = enhancement_given(key) {
            let ghost g = |c: Card| Card { enhancement, ..c };
            let f = |c: Card| -> (r: Card)
                ensures
                    r == (Card { enhancement, ..c }),
                { Card { enhancement, ..c } };
            change_cards(&mut self.hand, targets, f, Ghost(g));
            return true;
        }
        if let Some(suit) = suit_given(key) {
            let ghost g = |c: Card| Card { suit, ..c };
            let f = |c: Card| -> (r: Card)
                ensures
                    r == (Card { suit, ..c }),
                { Card { suit, ..c } };
            change_cards(&mut self.hand, targets, f, Ghost(g));
            return true;
        }
        if let Some(seal) = seal_given(key) {
            let ghost g = |c: Card| Card { seal, ..c };
            let f = |c: Card| -> (r: Card)
                ensures
                    r == (Card { seal, ..c }),
                { Card { seal, ..c } };
            self.change_first(targets, f, Ghost(g));
            return true;
        }
        if same_text(key, "c_death") {
            self.use_death(targets);
            return true;
        }
        if same_text(key, "c_strength") {
            let ghost g = |c: Card| Card { rank: next_rank(c.rank), ..c };
            let f = |c: Card| -> (r: Card)
                ensures
                    r == (Card { rank: next_rank(c.rank), ..c }),
                { Card { rank: rank_after(c.rank), ..c } };
            change_cards(&mut self.hand, targets, f, Ghost(g));
            return true;
        }
        if same_text(key, "c_aura") {
            let edition = items::poll_edition(
                &mut self.rng,
                "aura",
                Double::from_i64(1),
                true,
                true,
                self.rates.edition,
            );
            let ghost g = |c: Card| Card { edition, ..c };
            let f = |c: Card| -> (r: Card)
                ensures
                    r == (Card { edition, ..c }),
                { Card { edition, ..c } };
            self.change_first(targets, f, Ghost(g));
            return true;
        }
        false
    }
}

// ---- what a consumable does to the hand ----------------------------------

/// The suits as they are drawn.
pub open spec fn drawn_suit(i: int) -> Suit {
    if i == 0 {
        Suit::Spades
    } else if i == 1 {
        Suit::Hearts
    } else if i == 2 {
        Suit::Diamonds
    } else {
        Suit::Clubs
    }
}

fn suit_at(i: usize) -> (r: Suit)
    ensures
        r == drawn_suit(i as int),
{
    match i {
        0 => Suit::Spades,
        1 => Suit::Hearts,
        2 => Suit::Diamonds,
        _ => Suit::Clubs,
    }
}

/// What Familiar, Grim and Incantation make.
#[derive(Debug, Clone, Copy, PartialEq, Eq, Structural)]
pub enum CreateKind {
    Familiar,
    Grim,
    Incantation,
}

impl CreateKind {
    /// The key of the draws.
    pub open spec fn stream(self) -> Key {
        match self {
            CreateKind::Familiar => "familiar_create",
            CreateKind::Grim => "grim_create",
            CreateKind::Incantation => "incantation_create",
        }
    }

    fn key(self) -> (r: &'static str)
        ensures
            r == self.stream(),
    {
        match self {
            CreateKind::Familiar => "familiar_create",
            CreateKind::Grim => "grim_create",
            CreateKind::Incantation => "incantation_create",
        }
    }

    /// How many ranks there are to draw from, from the lowest on.
    pub open spec fn ranks(self) -> nat {
        match self {
            CreateKind::Familiar => 3,
            CreateKind::Grim => 1,
            CreateKind::Incantation => 9,
        }
    }

    pub open spec fn lowest(self) -> int {
        match self {
            CreateKind::Familiar => 11,
            CreateKind::Grim => 14,
            CreateKind::Incantation => 2,
        }
    }
}

/// The enhancements among the first `n` but Stone.
pub open spec fn no_stone(n: nat) -> Seq<Key>
    decreases n,
{
    if n == 0 {
        seq![]
    } else {
        let rest = no_stone((n - 1) as nat);
        let k = registry::enhanced(n - 1);
        if k@ == "m_stone"@ {
            rest
        } else {
            rest.push(k)
        }
    }
}

fn enhancements_but_stone() -> (r: Vec<&'static str>)
    ensures
        r@ == no_stone(8),
{
    let mut list: Vec<&'static str> = Vec::new();
    let mut i: usize = 0;
    assert(list@ =~= seq![]);
    while i < 8
        invariant
            i <= 8,
            list@ == no_stone(i as nat),
        decreases 8 - i,
    {
        let k = registry::enhanced_at(i);
        if !same_text(k, "m_stone") {
            list.push(k);
        }
        i = i + 1;
    }
    list
}

/// Holograms grow by playing cards that are added.
pub open spec fn hologram_grown(count: nat) -> spec_fn(OwnedJoker) -> OwnedJoker {
    |j: OwnedJoker|
        if j.id == JokerId::Hologram && !j.debuffed {
            j.gain_x(Double::frac(25, 100).times(Double::of(count as int)))
        } else {
            j
        }
}

impl RunModel {
    /// The jokers see playing cards added.
    pub open spec fn cards_added(self, count: nat) -> RunModel {
        RunModel { jokers: self.jokers.map_values(hologram_grown(count)), ..self }
    }

    /// A drawn card of the hand is destroyed.
    pub open spec fn one_destroyed(self) -> RunModel {
        let ids = making::card_ids(self.hand);
        if ids.len() == 0 {
            self
        } else {
            let m = self.after("random_destroy"@);
            match making::found(ids, making::picked(self.s, "random_destroy"@, ids)) {
                Some(i) => RunModel {
                    hand: m.hand.remove(i as int),
                    destroyed_cards: m.destroyed_cards.push(m.hand[i as int]),
                    ..m
                },
                None => m,
            }
        }
    }

    /// The rank of a new card: the only one, or a drawn one.
    pub open spec fn created_rank(self, kind: CreateKind) -> (int, RunModel) {
        if kind == CreateKind::Grim {
            (14, self)
        } else {
            let key = kind.stream()@;
            (kind.lowest() + self.s.place(key, kind.ranks()), self.after(key))
        }
    }

    /// One new enhanced card comes into the hand.
    pub open spec fn one_created(self, kind: CreateKind) -> RunModel {
        let (rank, m) = self.created_rank(kind);
        let key = kind.stream()@;
        let suit = drawn_suit(m.s.place(key, 4));
        let m1 = m.after(key);
        let pool = no_stone(8);
        let (enhancement, m2) = if pool.len() == 0 {
            (Enhancement::Plain, m1)
        } else {
            (
                items::enhancement_named(pool[m1.s.place("spe_card"@, pool.len())]@),
                m1.after("spe_card"@),
            )
        };
        let card = cards::plain_card(Rank(rank as u8), suit, m2.next_id());
        let m3 = m2.one_more_card().numbered();
        RunModel { hand: m3.hand.push(Card { enhancement, ..card }), ..m3 }
    }

    pub open spec fn many_created(self, kind: CreateKind, n: nat) -> RunModel
        decreases n,
    {
        if n == 0 {
            self
        } else {
            self.many_created(kind, (n - 1) as nat).one_created(kind)
        }
    }

    /// One card of the hand is destroyed, and some are made.
    pub open spec fn exchanged(self, kind: CreateKind, extra: nat) -> RunModel {
        self.one_destroyed().many_created(kind, extra).cards_added(extra)
    }

    /// The first `n` of some cards are destroyed in hand.
    pub open spec fn burned(self, cards: Seq<Card>, n: nat) -> RunModel
        decreases n,
    {
        if n == 0 {
            self
        } else {
            let m = self.burned(cards, (n - 1) as nat);
            match making::found(making::card_ids(m.hand), cards[n - 1].sort_id) {
                Some(i) => RunModel {
                    hand: m.hand.remove(i as int),
                    destroyed_cards: m.destroyed_cards.push(m.hand[i as int]),
                    ..m
                },
                None => m,
            }
        }
    }

    /// Five drawn cards are destroyed for 20 dollars.
    pub open spec fn immolated(self) -> RunModel {
        let cards = deck::shuffled(self.hand, self.s.drawn_seed("immolate"@));
        let n = if self.hand.len() < 5 {
            self.hand.len()
        } else {
            5
        };
        self.after("immolate"@).burned(cards, n).paid(20)
    }

    /// A copy of a card comes into the hand.
    pub open spec fn card_copied(self, src: Card) -> RunModel {
        let m = self.one_more_card().numbered();
        RunModel { hand: m.hand.push(Card { sort_id: m.counters.sort_id, ..src }), ..m }
    }

    /// The cards that work on all of the hand, copy or destroy.
    #[verifier::opaque]
    pub open spec fn hand_effect(self, key: Seq<char>, targets: Seq<usize>) -> Option<RunModel> {
        if key == "c_sigil"@ {
            let suit = drawn_suit(self.s.place("sigil"@, 4));
            let m = self.after("sigil"@);
            Some(RunModel { hand: m.hand.map_values(|c: Card| Card { suit, ..c }), ..m })
        } else if key == "c_ouija"@ {
            let rank = Rank((2 + self.s.place("ouija"@, 13)) as u8);
            let m = self.after("ouija"@);
            Some(
                (RunModel {
                    hand: m.hand.map_values(|c: Card| Card { rank, ..c }),
                    ..m
                }).resized(-1),
            )
        } else if key == "c_cryptid"@ {
            if targets.len() > 0 && targets[0] < self.hand.len() {
                let src = self.hand[targets[0] as int];
                Some(self.card_copied(src).card_copied(src).cards_added(2))
            } else {
                Some(self)
            }
        } else if key == "c_hanged_man"@ {
            let sel = order::sorted(targets, scoring::place_leq());
            Some(
                RunModel {
                    hand: play::left(self.hand, sel, self.hand.len()),
                    destroyed_cards: self.destroyed_cards + play::taken(self.hand, sel).reverse(),
                    ..self
                },
            )
        } else if key == "c_familiar"@ {
            Some(self.exchanged(CreateKind::Familiar, 3))
        } else if key == "c_grim"@ {
            Some(self.exchanged(CreateKind::Grim, 2))
        } else if key == "c_incantation"@ {
            Some(self.exchanged(CreateKind::Incantation, 4))
        } else if key == "c_immolate"@ {
            Some(self.immolated())
        } else {
            None
        }
    }
}

impl Run {
    pub(crate) fn joker_playing_cards_added(&mut self, count: usize)
        ensures
            final(self)@ == old(self)@.cards_added(count as nat),
    {
        let gain = Double::lit(25, 100).mul(Double::from_u64(count as u64));
        let f = |j: OwnedJoker| -> (r: OwnedJoker)
            ensures
                r == hologram_grown(count as nat)(j),
            {
                if j.id == JokerId::Hologram && !j.debuffed {
                    let mut k = j;
                    k.state.x_mult = k.state.x_mult.add(gain);
                    k
                } else {
                    j
                }
            };
        alter(&mut self.jokers, f, Ghost(hologram_grown(count as nat)));
    }

    fn destroy_one(&mut self)
        ensures
            final(self)@ == old(self)@.one_destroyed(),
    {
        let ids = numbers_of_cards(&self.hand);
        if ids.len() > 0 {
            let id: u32 = pick_number(&mut self.rng, "random_destroy", &ids);
            if let Some(i) = find_number(&ids, id) {
                let card = self.hand.remove(i);
                self.destroyed_cards.push(card);
            }
        }
    }

    fn draw_rank(&mut self, kind: CreateKind) -> (r: u8)
        ensures
            (r as int, final(self)@) == old(self)@.created_rank(kind),
    {
        match kind {
            CreateKind::Familiar => {
                let i: usize = items::element_index(&mut self.rng, "familiar_create", 3);
                11 + i as u8
            },
            CreateKind::Grim => 14,
            CreateKind::Incantation => {
                let i: usize = items::element_index(&mut self.rng, "incantation_create", 9);
                2 + i as u8
            },
        }
    }

    fn create_one(&mut self, kind: CreateKind)
        ensures
            final(self)@ == old(self)@.one_created(kind),
    {
        let rank: u8 = self.draw_rank(kind);
        let i: usize = items::element_index(&mut self.rng, kind.key(), 4);
        let suit = suit_at(i);
        let pool = enhancements_but_stone();
        let mut enhancement = Enhancement::Plain;
        if pool.len() > 0 {
            let k: usize = items::element_index(&mut self.rng, "spe_card", pool.len());
            enhancement = items::enhancement_from_key(pool[k]);
        }
        self.count_card();
        let sort_id: u32 = self.next_sort_id();
        let mut card = Card::new(Rank(rank), suit, sort_id);
        card.enhancement = enhancement;
        self.hand.push(card);
    }

    fn destroy_and_create(&mut self, extra: usize, kind: CreateKind)
        ensures
            final(self)@ == old(self)@.exchanged(kind, extra as nat),
    {
        self.destroy_one();
        let ghost m = self@;
        let mut k: usize = 0;
        while k < extra
            invariant
                k <= extra,
                self@ == m.many_created(kind, k as nat),
            decreases extra - k,
        {
            self.create_one(kind);
            k = k + 1;
        }
        self.joker_playing_cards_added(extra);
    }

    fn immolate(&mut self)
        ensures
            final(self)@ == old(self)@.immolated(),
    {
        let mut cards: Vec<Card> = Vec::new();
        let mut k: usize = 0;
        while k < self.hand.len()
            invariant
                k <= self.hand.len(),
                cards@ == self.hand@.take(k as int),
            decreases self.hand.len() - k,
        {
            cards.push(self.hand[k]);
            k = k + 1;
            assert(cards@ =~= self.hand@.take(k as int));
        }
        assert(cards@ =~= self.hand@);
        let seed = self.rng.pseudoseed("immolate");
        pseudoshuffle(&mut cards, seed);
        proof {
            deck::law_shuffle_permutes(self.hand@, seed);
        }
        let n: usize = if self.hand.len() < 5 {
            self.hand.len()
        } else {
            5
        };
        let ghost m = self@;
        let mut i: usize = 0;
        while i < n
            invariant
                i <= n <= cards.len(),
                self@ == m.burned(cards@, i as nat),
            decreases n - i,
        {
            let ids = numbers_of_cards(&self.hand);
            if let Some(p) = find_number(&ids, cards[i].sort_id) {
                let card = self.hand.remove(p);
                self.destroyed_cards.push(card);
            }
            i = i + 1;
        }
        self.purse.dollars = self.purse.dollars.wrapping_add(20);
    }

    fn copy_card(&mut self, src: Card)
        ensures
            final(self)@ == old(self)@.card_copied(src),
    {
        self.count_card();
        let sort_id: u32 = self.next_sort_id();
        let mut copy = src;
        copy.sort_id = sort_id;
        self.hand.push(copy);
    }

    fn destroy_targets(&mut self, targets: &Vec<usize>)
        requires
            old(self)@.targets_in_hand(targets@),
        ensures
            Some(final(self)@) == old(self)@.hand_effect("c_hanged_man"@, targets@),
    {
        let sel = sort_places(targets);
        proof {
            assert forall|i: int| 0 <= i < sel@.len() implies #[trigger] sel@[i]
                < self.hand@.len() by {
                assert(sel@.contains(sel@[i]));
                let k = choose|k: int| 0 <= k < targets@.len() && targets@[k] == sel@[i];
                assert(targets@[k] < self@.hand.len());
            }
        }
        let cards = self.remove_from_hand(&sel);
        let ghost before = self.destroyed_cards@;
        let mut k: usize = cards.len();
        assert(self@.destroyed_cards =~= before + cards@.reverse().take(0));
        let ghost m = self@;
        while k > 0
            invariant
                k <= cards.len(),
                self@ == (RunModel { destroyed_cards: self.destroyed_cards@, ..m }),
                self.destroyed_cards@ == before + cards@.reverse().take(cards.len() - k),
            decreases k,
        {
            k = k - 1;
            self.destroyed_cards.push(cards[k]);
            assert(self.destroyed_cards@ =~= before + cards@.reverse().take(cards.len() - k));
        }
        proof {
            reveal(RunModel::hand_effect);
            lemma_hand_keys();
            assert(self.destroyed_cards@ =~= before + cards@.reverse());
        }
    }

    fn change_hand<F: Fn(Card) -> Card>(&mut self, f: F, Ghost(g): Ghost<spec_fn(Card) -> Card>)
        requires
            forall|x: Card| call_requires(f, (x,)),
            forall|x: Card, y: Card| call_ensures(f, (x,), y) ==> y == g(x),
        ensures
            final(self)@ == (RunModel { hand: old(self)@.hand.map_values(g), ..old(self)@ }),
    {
        alter(&mut self.hand, f, Ghost(g));
    }

    pub(crate) fn use_on_hand(&mut self, key: &str, targets: &Vec<usize>) -> (r: bool)
        requires
            old(self)@.targets_in_hand(targets@),
        ensures
            match old(self)@.hand_effect(key@, targets@) {
                Some(m) => r && final(self)@ == m,
                None => !r && final(self)@ == old(self)@,
            },
    {
        if same_text(key, "c_hanged_man") {
            self.destroy_targets(targets);
            return true;
        }
        proof {
            reveal(RunModel::hand_effect);
        }
        if same_text(key, "c_sigil") {
            let i: usize = items::element_index(&mut self.rng, "sigil", 4);
            let suit = suit_at(i);
            let ghost g = |c: Card| Card { suit, ..c };
            let f = |c: Card| -> (r: Card)
                ensures
                    r == (Card { suit, ..c }),
                { Card { suit, ..c } };
            self.change_hand(f, Ghost(g));
        } else if same_text(key, "c_ouija") {
            let i: usize = items::element_index(&mut self.rng, "ouija", 13);
            let rank = Rank(2 + i as u8);
            let ghost g = |c: Card| Card { rank, ..c };
            let f = |c: Card| -> (r: Card)
                ensures
                    r == (Card { rank, ..c }),
                { Card { rank, ..c } };
            self.change_hand(f, Ghost(g));
            self.round.hand_size = self.round.hand_size.wrapping_add(-1);
        } else if same_text(key, "c_cryptid") {
            if targets.len() > 0 && targets[0] < self.hand.len() {
                let src = self.hand[targets[0]];
                self.copy_card(src);
                self.copy_card(src);
                self.joker_playing_cards_added(2);
            }
        } else if same_text(key, "c_familiar") {
            self.destroy_and_create(3, CreateKind::Familiar);
        } else if same_text(key, "c_grim") {
            self.destroy_and_create(2, CreateKind::Grim);
        } else if same_text(key, "c_incantation") {
            self.destroy_and_create(4, CreateKind::Incantation);
        } else if same_text(key, "c_immolate") {
            self.immolate();
        } else {
            return false;
        }
        true
    }
}

/// The Hanged Man is none of the cards before it.
proof fn lemma_hand_keys()
    ensures
        "c_hanged_man"@ != "c_sigil"@,
        "c_hanged_man"@ != "c_ouija"@,
        "c_hanged_man"@ != "c_cryptid"@,
{
    reveal_strlit("c_hanged_man");
    reveal_strlit("c_sigil");
    reveal_strlit("c_ouija");
    reveal_strlit("c_cryptid");
    assert("c_hanged_man"@.len() == 12);
}

} // verus!
