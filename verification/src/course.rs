//! How a run starts, how blinds are taken on, and cashing out.
use crate::blinds;
use crate::blinds::{bl_big, bl_small, find_boss, get_new_boss, ActiveBlind, BlindProto};
use crate::cards::{Card, HandType, Suit};
use crate::config::Deck;
use crate::deck;
use crate::deck::{pseudoshuffle, red_deck, stir};
use crate::double::Double;
use crate::items::JokerId;
use crate::jokers::EngineHooks;
use crate::keymap::KeyMap;
use crate::making::alter;
use crate::order;
use crate::order::stable_sort;
use crate::rng::{RngState, Streams};
use crate::round;
use crate::round::face_up;
use crate::run::{
    BlindStage, Counters, Limits, Marks, Offers, Purse, Rates, Record, Refusal, Reroll, Round, Run,
    RunError, RunModel, State, Track, Turn,
};
use crate::scoring::{HandsTable, JokerHooks};
use crate::shop::{OwnedJoker, TagContext};
use crate::text::{same_text, with_number};
use vstd::prelude::*;

verus! {

/// The ante whose boss wins the run.
pub const WIN_ANTE: i64 = 8;

pub const STARTING_DOLLARS: i64 = 4;

pub const STARTING_HANDS: i64 = 4;

pub const STARTING_DISCARDS: i64 = 4;

pub const HAND_SIZE: i64 = 8;

pub const STARTING_REROLL_COST: i64 = 5;

pub const JOKER_SLOTS: usize = 5;

// ---- the start -----------------------------------------------------------

/// A run of a seed before anything was drawn but its first boss.
pub open spec fn opening(seed: Seq<char>) -> RunModel {
    let s = Streams::start(seed);
    let boss = blinds::next_boss(s, Map::empty(), 1, WIN_ANTE);
    RunModel {
        s: s.after("boss"@),
        deck: seq![],
        hand: seq![],
        discard_pile: seq![],
        destroyed_cards: seq![],
        jokers: seq![],
        consumables: seq![],
        used_keys: Map::empty(),
        used_vouchers: Map::empty(),
        pool_flags: Map::empty(),
        bosses_used: blinds::counted(Map::empty(), boss@),
        consumable_usage: Map::empty(),
        shop: None,
        pack: None,
        tags: seq![],
        orbital_choices: seq![],
        last_play: None,
        state: State::BlindSelect,
        track: Track {
            ante: 1,
            blind_ante: 1,
            round: 0,
            blind_on_deck: BlindStage::Small,
            boss_choice: boss,
            small_defeated: false,
            big_defeated: false,
            small_skipped: false,
            big_skipped: false,
            boss_rerolled: false,
            last_blind_boss: false,
            won: false,
        },
        purse: Purse {
            dollars: STARTING_DOLLARS,
            bankrupt_at: 0,
            interest_cap: 25,
            interest_amount: 1,
            discount_percent: 0,
            pending_cashout: 0,
        },
        round: Round {
            chips: Double::of(0),
            hands_left: STARTING_HANDS,
            discards_left: STARTING_DISCARDS,
            hand_size: HAND_SIZE,
            temp_handsize: None,
            hands_played: 0,
            discards_used: 0,
            active_blind: None,
            forced_card: None,
        },
        limits: Limits {
            hands: STARTING_HANDS,
            discards: STARTING_DISCARDS,
            joker_slots: JOKER_SLOTS,
            consumable_slots: 2,
            shop_joker_max: 2,
        },
        reroll: Reroll {
            base_cost: STARTING_REROLL_COST,
            cost: STARTING_REROLL_COST,
            increase: 0,
            temp_cost: None,
            free: 0,
        },
        rates: Rates {
            edition: Double::of(1),
            joker: Double::of(20),
            tarot: Double::of(4),
            planet: Double::of(4),
            playing_card: Double::of(0),
            spectral: Double::of(0),
            prob_normal: Double::of(1),
        },
        record: Record {
            hands: HandsTable::first(),
            most_played_hand: HandType::HighCard,
            last_hand_played: None,
            unused_discards: 0,
            hands_played_total: 0,
            skips: 0,
            tarots_used: 0,
            last_tarot_planet: None,
            ecto_minus: 1,
        },
        marks: Marks {
            mail_card_id: 14,
            idol_card: (14, Suit::Spades),
            ancient_suit: None,
            castle_suit: Suit::Spades,
        },
        offers: Offers {
            forced_tag: None,
            current_voucher: None,
            blind_tag_small: "",
            blind_tag_big: "",
            first_shop_buffoon: false,
            shop_free: false,
            shop_d6ed: false,
        },
        counters: Counters { sort_id: 52, playing_card: 52 },
    }
}

impl RunModel {
    /// The voucher of the ante is drawn.
    pub open spec fn voucher_offered(self) -> RunModel {
        let (key, m) = self.voucher_drawn(false);
        RunModel { offers: Offers { current_voucher: Some(key), ..m.offers }, ..m }
    }

    /// The tags of the Small and the Big Blind are drawn.
    pub open spec fn blind_tags_drawn(self) -> RunModel {
        let (small, m) = self.tag_drawn();
        let m1 = RunModel { offers: Offers { blind_tag_small: small, ..m.offers }, ..m };
        let (big, m2) = m1.tag_drawn();
        RunModel { offers: Offers { blind_tag_big: big, ..m2.offers }, ..m2 }
    }

    /// The deck is shuffled with a draw from a key.
    pub open spec fn deck_shuffled(self, key: Seq<char>) -> RunModel {
        RunModel { deck: deck::shuffled(self.deck, self.s.drawn_seed(key)), ..self.after(key) }
    }
}

/// A run of a seed.
#[verifier::opaque]
pub open spec fn started(seed: Seq<char>) -> RunModel {
    let m = opening(seed).voucher_offered().blind_tags_drawn();
    (RunModel {
        deck: deck::starting_deck(Deck::Red, Streams::start(seed)),
        ..m
    }).deck_shuffled("shuffle"@).marks_reset().at_blind_select()
}

impl Run {
    fn open(seed: &str) -> (r: Run)
        ensures
            r@ == opening(seed@),
    {
        let mut rng = RngState::new(seed);
        let mut bosses_used: KeyMap<i64> = KeyMap::new();
        let boss_choice = get_new_boss(&mut rng, &mut bosses_used, 1, WIN_ANTE);
        let r = Run {
            rng,
            deck: Vec::new(),
            hand: Vec::new(),
            discard_pile: Vec::new(),
            destroyed_cards: Vec::new(),
            jokers: Vec::new(),
            consumables: Vec::new(),
            used_keys: KeyMap::new(),
            used_vouchers: KeyMap::new(),
            pool_flags: KeyMap::new(),
            bosses_used,
            consumable_usage: KeyMap::new(),
            shop: None,
            pack: None,
            tags: Vec::new(),
            orbital_choices: Vec::new(),
            last_play: None,
            state: State::BlindSelect,
            track: Track {
                ante: 1,
                blind_ante: 1,
                round: 0,
                blind_on_deck: BlindStage::Small,
                boss_choice,
                small_defeated: false,
                big_defeated: false,
                small_skipped: false,
                big_skipped: false,
                boss_rerolled: false,
                last_blind_boss: false,
                won: false,
            },
            purse: Purse {
                dollars: STARTING_DOLLARS,
                bankrupt_at: 0,
                interest_cap: 25,
                interest_amount: 1,
                discount_percent: 0,
                pending_cashout: 0,
            },
            round: Round {
                chips: Double::from_i64(0),
                hands_left: STARTING_HANDS,
                discards_left: STARTING_DISCARDS,
                hand_size: HAND_SIZE,
                temp_handsize: None,
                hands_played: 0,
                discards_used: 0,
                active_blind: None,
                forced_card: None,
            },
            limits: Limits {
                hands: STARTING_HANDS,
                discards: STARTING_DISCARDS,
                joker_slots: JOKER_SLOTS,
                consumable_slots: 2,
                shop_joker_max: 2,
            },
            reroll: Reroll {
                base_cost: STARTING_REROLL_COST,
                cost: STARTING_REROLL_COST,
                increase: 0,
                temp_cost: None,
                free: 0,
            },
            rates: Rates {
                edition: Double::from_i64(1),
                joker: Double::from_i64(20),
                tarot: Double::from_i64(4),
                planet: Double::from_i64(4),
                playing_card: Double::from_i64(0),
                spectral: Double::from_i64(0),
                prob_normal: Double::from_i64(1),
            },
            record: Record {
                hands: HandsTable::new(),
                most_played_hand: HandType::HighCard,
                last_hand_played: None,
                unused_discards: 0,
                hands_played_total: 0,
                skips: 0,
                tarots_used: 0,
                last_tarot_planet: None,
                ecto_minus: 1,
            },
            marks: Marks {
                mail_card_id: 14,
                idol_card: (14, Suit::Spades),
                ancient_suit: None,
                castle_suit: Suit::Spades,
            },
            offers: Offers {
                forced_tag: None,
                current_voucher: None,
                blind_tag_small: "",
                blind_tag_big: "",
                first_shop_buffoon: false,
                shop_free: false,
                shop_d6ed: false,
            },
            counters: Counters { sort_id: 52, playing_card: 52 },
        };
        assert(r@.deck =~= seq![]);
        assert(r@.jokers =~= seq![]);
        assert(r@.consumables =~= seq![]);
        assert(r@.tags =~= seq![]);
        assert(r@.orbital_choices =~= seq![]);
        r
    }

    fn draw_blind_tags(&mut self)
        ensures
            final(self)@ == old(self)@.blind_tags_drawn(),
    {
        self.offers.blind_tag_small = self.next_tag_key();
        self.offers.blind_tag_big = self.next_tag_key();
    }

    fn shuffle_deck(&mut self, key: &str)
        ensures
            final(self)@ == old(self)@.deck_shuffled(key@),
    {
        let seed = self.rng.pseudoseed(key);
        pseudoshuffle(&mut self.deck, seed);
    }

    fn reset_marks(&mut self)
        ensures
            final(self)@ == old(self)@.marks_reset(),
    {
        self.reset_idol_card();
        self.reset_mail_rank();
        self.reset_ancient_card();
        self.reset_castle_card();
    }

    /// A run of a seed, at its first blind.
    pub fn new(seed: &str) -> (r: Self)
        ensures
            r@ == started(seed@),
    {
        proof {
            reveal(started);
            deck::law_only_three_decks_change_the_cards(
                Deck::Red,
                Streams::start(seed@),
                Streams::start(""@),
            );
        }
        let mut run = Run::open(seed);
        let key = run.next_voucher_key(false);
        run.offers.current_voucher = Some(key);
        run.draw_blind_tags();
        run.deck = red_deck();
        run.shuffle_deck("shuffle");
        run.reset_marks();
        run.enter_blind_select();
        run
    }
}

// ---- taking on a blind ---------------------------------------------------

/// How many of the first `n` jokers are working Chaos the Clowns.
pub open spec fn clowns(jokers: Seq<OwnedJoker>, n: nat) -> nat
    decreases n,
{
    if n == 0 {
        0
    } else {
        clowns(jokers, (n - 1) as nat) + (if jokers[n - 1].id == JokerId::Chaos
            && !jokers[n - 1].debuffed {
            1nat
        } else {
            0
        })
    }
}

fn count_clowns(jokers: &Vec<OwnedJoker>) -> (r: usize)
    ensures
        r == clowns(jokers@, jokers@.len()),
{
    let mut n: usize = 0;
    let mut i: usize = 0;
    while i < jokers.len()
        invariant
            n <= i <= jokers.len(),
            n == clowns(jokers@, i as nat),
        decreases jokers.len() - i,
    {
        if jokers[i].id == JokerId::Chaos && !jokers[i].debuffed {
            n = n + 1;
        }
        i = i + 1;
    }
    n
}

/// Jokers by number.
pub open spec fn joker_leq() -> spec_fn(OwnedJoker, OwnedJoker) -> bool {
    |a: OwnedJoker, b: OwnedJoker| a.sort_id <= b.sort_id
}

/// Cards as a blind debuffs them.
pub open spec fn stamped(cards: Seq<Card>, b: ActiveBlind, pareidolia: bool, smeared: bool) -> Seq<
    Card,
> {
    cards.map_values(|c: Card| Card { debuff: b.debuffs(c, pareidolia, smeared), ..c })
}

fn stamp(cards: &mut Vec<Card>, b: &ActiveBlind, pareidolia: bool, smeared: bool)
    ensures
        final(cards)@ == stamped(old(cards)@, *b, pareidolia, smeared),
{
    let ghost g = |c: Card| Card { debuff: b.debuffs(c, pareidolia, smeared), ..c };
    let f = |c: Card| -> (r: Card)
        ensures
            r == (Card { debuff: b.debuffs(c, pareidolia, smeared), ..c }),
        { Card { debuff: b.debuff_card(&c, pareidolia, smeared), ..c } };
    alter(cards, f, Ghost(g));
}

impl RunModel {
    /// The blind that is next.
    pub open spec fn next_blind(self) -> BlindProto {
        match self.track.blind_on_deck {
            BlindStage::Small => blinds::small_blind(),
            BlindStage::Big => blinds::big_blind(),
            BlindStage::Boss => match blinds::boss_from(self.track.boss_choice@, 0) {
                Some(b) => b,
                None => blinds::small_blind(),
            },
        }
    }

    /// Hands and discards are full again.
    pub open spec fn restocked(self) -> RunModel {
        RunModel {
            round: Round {
                hands_left: if self.limits.hands < 1 {
                    1
                } else {
                    self.limits.hands
                },
                discards_left: if self.limits.discards < 0 {
                    0
                } else {
                    self.limits.discards
                },
                ..self.round
            },
            ..self
        }
    }

    /// A round begins: what is counted by round starts anew.
    #[verifier::opaque]
    pub open spec fn round_begun(self, boss: bool) -> RunModel {
        let m = self.restocked();
        let m1 = (RunModel {
            track: Track {
                round: m.track.round.wrapping_add(1),
                last_blind_boss: boss,
                ..m.track
            },
            round: Round { hands_played: 0, discards_used: 0, ..m.round },
            reroll: Reroll {
                increase: 0,
                free: clowns(m.jokers, m.jokers.len()) as i64,
                ..m.reroll
            },
            record: Record { hands: m.record.hands.fresh_round(), ..m.record },
            ..m
        }).reroll_priced(true);
        RunModel {
            deck: round::faced_up(m1.deck),
            hand: round::faced_up(m1.hand),
            discard_pile: round::faced_up(m1.discard_pile),
            ..m1
        }
    }

    /// The Amber Acorn turns the jokers over and mixes them up.
    #[verifier::opaque]
    pub open spec fn acorn_mixed(self) -> RunModel {
        let jokers = self.jokers.map_values(|j: OwnedJoker| OwnedJoker { flipped: true, ..j });
        if jokers.len() > 1 {
            let s = self.s.after("aajk"@).after("aajk"@);
            RunModel {
                s: s.after("aajk"@),
                jokers: deck::stirred(
                    order::sorted(jokers, joker_leq()),
                    s.drawn_seed("aajk"@),
                ),
                ..self
            }
        } else {
            RunModel { jokers, ..self }
        }
    }

    /// What the blind takes when it is set.
    #[verifier::opaque]
    pub open spec fn blind_taken(self, b: ActiveBlind) -> (ActiveBlind, RunModel) {
        if b.named("The Water"@) {
            (
                ActiveBlind { discards_sub: self.round.discards_left, ..b },
                RunModel { round: Round { discards_left: 0, ..self.round }, ..self },
            )
        } else if b.named("The Needle"@) {
            (
                ActiveBlind { hands_sub: self.round.hands_left.wrapping_sub(1), ..b },
                RunModel { round: Round { hands_left: 1, ..self.round }, ..self },
            )
        } else if b.named("The Manacle"@) {
            (b, self.resized(-1))
        } else if b.named("Amber Acorn"@) {
            (b, self.acorn_mixed())
        } else {
            (b, self)
        }
    }

    /// A blind is set: it takes what it takes and debuffs cards.
    #[verifier::opaque]
    pub open spec fn blind_set(self, b: ActiveBlind) -> RunModel {
        let (b1, m) = self.blind_taken(b);
        let pareidolia = m.owns(JokerId::Pareidolia);
        let smeared = m.owns(JokerId::Smeared);
        RunModel {
            deck: stamped(m.deck, b1, pareidolia, smeared),
            hand: stamped(m.hand, b1, pareidolia, smeared),
            discard_pile: stamped(m.discard_pile, b1, pareidolia, smeared),
            round: Round { active_blind: Some(b1), ..m.round },
            ..m
        }
    }

    /// The jokers see the blind set.
    #[verifier::opaque]
    pub open spec fn blind_seen(self) -> RunModel {
        let (e, s) = EngineHooks::at_setting_blind(self.engine(seq![]), self.s);
        (RunModel { s, ..self }).rejoined(e, round::disabling(true))
    }

    /// The next blind is taken on, where the blinds of the ante go by an amount
    /// of chips.
    #[verifier::opaque]
    pub open spec fn blind_selected(self, amount: Double) -> Turn {
        if self.state != State::BlindSelect {
            Turn::refused(self, Refusal::WrongState)
        } else {
            let proto = self.next_blind();
            let m = self.round_begun(proto.is_boss).blind_set(
                ActiveBlind::fresh(proto, amount),
            ).blind_seen();
            let m1 = m.deck_shuffled(m.at_ante("nr")).tags_applied(
                TagContext::RoundStartBonus,
            ).hand_drawn();
            Turn::done(RunModel { state: State::SelectingHand, ..m1 })
        }
    }
}

impl Run {
    fn restock(&mut self)
        ensures
            final(self)@ == old(self)@.restocked(),
    {
        self.round.hands_left = if self.limits.hands < 1 {
            1
        } else {
            self.limits.hands
        };
        self.round.discards_left = if self.limits.discards < 0 {
            0
        } else {
            self.limits.discards
        };
    }

    fn begin_round(&mut self, boss: bool)
        ensures
            final(self)@ == old(self)@.round_begun(boss),
    {
        proof {
            reveal(RunModel::round_begun);
        }
        self.restock();
        self.track.round = self.track.round.wrapping_add(1);
        self.track.last_blind_boss = boss;
        self.round.hands_played = 0;
        self.round.discards_used = 0;
        self.reroll.increase = 0;
        self.reroll.free = count_clowns(&self.jokers) as i64;
        self.record.hands.reset_played_this_round();
        self.calculate_reroll_cost(true);
        face_up(&mut self.deck);
        face_up(&mut self.hand);
        face_up(&mut self.discard_pile);
    }

    fn mix_acorn(&mut self)
        ensures
            final(self)@ == old(self)@.acorn_mixed(),
    {
        proof {
            reveal(RunModel::acorn_mixed);
        }
        let ghost g = |j: OwnedJoker| OwnedJoker { flipped: true, ..j };
        let f = |j: OwnedJoker| -> (r: OwnedJoker)
            ensures
                r == (OwnedJoker { flipped: true, ..j }),
            { OwnedJoker { flipped: true, ..j } };
        alter(&mut self.jokers, f, Ghost(g));
        if self.jokers.len() > 1 {
            let _first = self.rng.pseudoseed("aajk");
            let _second = self.rng.pseudoseed("aajk");
            let seed = self.rng.pseudoseed("aajk");
            let le = |a: &OwnedJoker, b: &OwnedJoker| -> (c: bool)
                ensures
                    c == joker_leq()(*a, *b),
                { a.sort_id <= b.sort_id };
            let mut jokers = stable_sort(&self.jokers, le, Ghost(joker_leq()));
            stir(&mut jokers, seed);
            self.jokers = jokers;
        }
    }

    fn take_for_blind(&mut self, b: ActiveBlind) -> (r: ActiveBlind)
        ensures
            (r, final(self)@) == old(self)@.blind_taken(b),
    {
        proof {
            reveal(RunModel::blind_taken);
        }
        let mut b = b;
        if b.is("The Water") {
            b.discards_sub = self.round.discards_left;
            self.round.discards_left = 0;
        } else if b.is("The Needle") {
            b.hands_sub = self.round.hands_left.wrapping_sub(1);
            self.round.hands_left = 1;
        } else if b.is("The Manacle") {
            self.resize(-1);
        } else if b.is("Amber Acorn") {
            self.mix_acorn();
        }
        b
    }

    fn set_blind(&mut self, b: ActiveBlind)
        ensures
            final(self)@ == old(self)@.blind_set(b),
    {
        proof {
            reveal(RunModel::blind_set);
        }
        let b = self.take_for_blind(b);
        let pareidolia = self.joker_owned(JokerId::Pareidolia);
        let smeared = self.joker_owned(JokerId::Smeared);
        stamp(&mut self.deck, &b, pareidolia, smeared);
        stamp(&mut self.hand, &b, pareidolia, smeared);
        stamp(&mut self.discard_pile, &b, pareidolia, smeared);
        self.round.active_blind = Some(b);
    }

    fn show_blind(&mut self)
        ensures
            final(self)@ == old(self)@.blind_seen(),
    {
        proof {
            reveal(RunModel::blind_seen);
        }
        let none: Vec<Card> = Vec::new();
        assert(none@ =~= seq![]);
        let mut hooks = self.open_window(&none);
        hooks.setting_blind(&mut self.rng);
        self.rejoin(hooks, true);
    }

    fn next_blind(&self) -> (r: BlindProto)
        ensures
            r == self@.next_blind(),
    {
        match self.track.blind_on_deck {
            BlindStage::Small => bl_small(),
            BlindStage::Big => bl_big(),
            BlindStage::Boss => match find_boss(self.track.boss_choice) {
                Some(b) => b,
                None => bl_small(),
            },
        }
    }

    /// Take on the next blind, where the blinds of the ante go by an amount of
    /// chips.
    pub fn select_blind_asking(&mut self, amount: Double) -> (r: Result<(), RunError>)
        ensures
            final(self)@ == old(self)@.blind_selected(amount).run,
            old(self)@.blind_selected(amount).tells(r),
    {
        proof {
            reveal(RunModel::blind_selected);
        }
        if self.state != State::BlindSelect {
            return Err(RunError::WrongState);
        }
        let proto = self.next_blind();
        self.begin_round(proto.is_boss);
        self.set_blind(ActiveBlind::with_amount(proto, amount));
        self.show_blind();
        let key = with_number("nr", self.track.ante);
        self.shuffle_deck(key.as_str());
        self.apply_tags(TagContext::RoundStartBonus);
        self.draw_to_hand();
        self.state = State::SelectingHand;
        Ok(())
    }

    /// Take on the next blind where blinds are sized by an ante up to 8. Past it
    /// their chips follow real powers and come from outside (see
    /// [`Run::select_blind_asking`]).
    pub fn select_blind(&mut self) -> (r: Result<(), RunError>)
        requires
            old(self)@.state == State::BlindSelect ==> old(self)@.track.blind_ante <= 8,
        ensures
            final(self)@ == old(self)@.blind_selected(
                Double::of(blinds::base_amount(old(self)@.track.blind_ante)),
            ).run,
            old(self)@.blind_selected(
                Double::of(blinds::base_amount(old(self)@.track.blind_ante)),
            ).tells(r),
    {
        if self.state != State::BlindSelect {
            proof {
                reveal(RunModel::blind_selected);
            }
            return Err(RunError::WrongState);
        }
        let amount = blinds::get_blind_amount(self.track.blind_ante);
        self.select_blind_asking(amount)
    }
}

// ---- cashing out ---------------------------------------------------------

impl RunModel {
    /// The payout is paid, and the round is over.
    pub open spec fn paid_out(self) -> RunModel {
        let m = self.restocked().paid(self.purse.pending_cashout);
        RunModel {
            purse: Purse { pending_cashout: 0, ..m.purse },
            round: Round { chips: Double::of(0), active_blind: None, ..m.round },
            offers: Offers { shop_free: false, shop_d6ed: false, ..m.offers },
            ..m
        }
    }

    /// A blind is marked as defeated.
    pub open spec fn marked_defeated(self, b: Option<ActiveBlind>) -> RunModel {
        match b {
            Some(b) => RunModel {
                track: Track {
                    small_defeated: self.track.small_defeated || b.proto.key@
                        == blinds::small_blind().key@,
                    big_defeated: self.track.big_defeated || (b.proto.key@
                        != blinds::small_blind().key@ && b.proto.key@ == blinds::big_blind().key@),
                    ..self.track
                },
                ..self
            },
            None => self,
        }
    }

    /// The blinds of the next ante are drawn.
    #[verifier::opaque]
    pub open spec fn blinds_renewed(self) -> RunModel {
        let m = (RunModel {
            track: Track { blind_ante: self.track.ante, ..self.track },
            ..self
        }).blind_tags_drawn().boss_redrawn();
        RunModel {
            track: Track {
                small_defeated: false,
                big_defeated: false,
                small_skipped: false,
                big_skipped: false,
                boss_rerolled: false,
                ..m.track
            },
            ..m
        }
    }

    /// The first blind that was neither defeated nor skipped.
    pub open spec fn stage_due(self) -> BlindStage {
        if !self.track.small_defeated && !self.track.small_skipped {
            BlindStage::Small
        } else if !self.track.big_defeated && !self.track.big_skipped {
            BlindStage::Big
        } else {
            BlindStage::Boss
        }
    }

    /// The next blind comes up.
    pub open spec fn moved_on(self) -> RunModel {
        RunModel { track: Track { blind_on_deck: self.stage_due(), ..self.track }, ..self }
    }

    /// A won round is cashed out.
    #[verifier::opaque]
    pub open spec fn cashed_out(self) -> Turn {
        if self.state != State::RoundEval {
            Turn::refused(self, Refusal::WrongState)
        } else {
            let b = self.round.active_blind;
            let boss = b matches Some(b) && b.proto.is_boss;
            let m = self.deck_shuffled(self.at_ante("cashout")).paid_out().marked_defeated(b);
            let m1 = if boss {
                m.blinds_renewed()
            } else {
                m
            }.moved_on();
            Turn::done(
                if m1.track.won {
                    RunModel { state: State::Won, ..m1 }
                } else {
                    (RunModel { state: State::Shop, ..m1 }).shop_laid()
                },
            )
        }
    }
}

impl Run {
    fn pay_out(&mut self)
        ensures
            final(self)@ == old(self)@.paid_out(),
    {
        self.restock();
        self.purse.dollars = self.purse.dollars.wrapping_add(self.purse.pending_cashout);
        self.purse.pending_cashout = 0;
        self.round.chips = Double::from_i64(0);
        self.round.active_blind = None;
        self.offers.shop_free = false;
        self.offers.shop_d6ed = false;
    }

    fn mark_defeated(&mut self, b: Option<ActiveBlind>)
        ensures
            final(self)@ == old(self)@.marked_defeated(b),
    {
        if let Some(b) = b {
            if same_text(b.proto.key, bl_small().key) {
                self.track.small_defeated = true;
            } else if same_text(b.proto.key, bl_big().key) {
                self.track.big_defeated = true;
            }
        }
    }

    fn renew_blinds(&mut self)
        ensures
            final(self)@ == old(self)@.blinds_renewed(),
    {
        proof {
            reveal(RunModel::blinds_renewed);
        }
        self.track.blind_ante = self.track.ante;
        self.draw_blind_tags();
        self.redraw_boss();
        self.track.small_defeated = false;
        self.track.big_defeated = false;
        self.track.small_skipped = false;
        self.track.big_skipped = false;
        self.track.boss_rerolled = false;
    }

    fn move_on(&mut self)
        ensures
            final(self)@ == old(self)@.moved_on(),
    {
        self.track.blind_on_deck = if !self.track.small_defeated && !self.track.small_skipped {
            BlindStage::Small
        } else if !self.track.big_defeated && !self.track.big_skipped {
            BlindStage::Big
        } else {
            BlindStage::Boss
        };
    }

    /// Cash out a won round and go to the shop.
    pub fn cash_out(&mut self) -> (r: Result<(), RunError>)
        ensures
            final(self)@ == old(self)@.cashed_out().run,
            old(self)@.cashed_out().tells(r),
    {
        proof {
            reveal(RunModel::cashed_out);
        }
        if self.state != State::RoundEval {
            return Err(RunError::WrongState);
        }
        let key = with_number("cashout", self.track.ante);
        self.shuffle_deck(key.as_str());
        let b = self.round.active_blind;
        self.pay_out();
        self.mark_defeated(b);
        let boss = match b {
            Some(b) => b.proto.is_boss,
            None => false,
        };
        if boss {
            self.renew_blinds();
        }
        self.move_on();
        if self.track.won {
            self.state = State::Won;
        } else {
            self.state = State::Shop;
            self.generate_shop();
        }
        Ok(())
    }
}

} // verus!
