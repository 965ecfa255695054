//! What each Tarot, Planet and Spectral card does.
use crate::cards::{Card, Enhancement, HandType, Rank, Seal, Suit};
use crate::items;
use crate::key_marks::lemma_consumable_marks;
use crate::play;
use crate::run::RunModel;
use crate::scoring;
use crate::tarots;
use crate::tarots::changed;
use vstd::prelude::*;

verus! {

/// Whether a consumable with a key is used, and accepted.
pub open spec fn uses(m: RunModel, i: usize, targets: Seq<usize>, key: Seq<char>) -> bool {
    i < m.consumables.len() && m.consumables[i as int].key@ == key && m.consumable_used(
        i,
        targets,
    ).refusal is None
}

/// The run after a consumable was used.
pub open spec fn after(m: RunModel, i: usize, targets: Seq<usize>) -> RunModel {
    m.consumable_used(i, targets).run
}

/// Whether cards differ from what they were in some places alone, and there by a
/// change.
pub open spec fn changed_in(
    before: Seq<Card>,
    now: Seq<Card>,
    places: Seq<usize>,
    f: spec_fn(Card) -> Card,
) -> bool {
    &&& now.len() == before.len()
    &&& forall|k: usize|
        k < before.len() ==> #[trigger] now[k as int] == if places.contains(k) {
            f(before[k as int])
        } else {
            before[k as int]
        }
}

/// A consumable that was used had its effect on the run without it.
proof fn lemma_use(m: RunModel, i: usize, targets: Seq<usize>, key: Seq<char>) -> (n: RunModel)
    requires
        uses(m, i, targets, key),
    ensures
        ({
            let base = m.without_consumable(i as nat).use_counted(key);
            &&& base.effect(key, targets) == Some(n)
            &&& base.hand == m.hand
            &&& base.jokers == m.jokers
            &&& base.purse == m.purse
            &&& base.record.hands == m.record.hands
            &&& base.record.last_tarot_planet == m.record.last_tarot_planet
            &&& base.round == m.round
            &&& base.s == m.s
            &&& base.rates == m.rates
            &&& base.destroyed_cards == m.destroyed_cards
        }),
        after(m, i, targets).hand == n.hand,
        after(m, i, targets).purse == n.purse,
        after(m, i, targets).record.hands == n.record.hands,
        after(m, i, targets).round == n.round,
        after(m, i, targets).limits == n.limits,
        after(m, i, targets).consumables == n.consumables,
        after(m, i, targets).destroyed_cards == n.destroyed_cards,
        m.targets_in_hand(targets),
{
    reveal(RunModel::consumable_used);
    reveal(RunModel::unusable);
    reveal(RunModel::used);
    m.without_consumable(i as nat).use_counted(key).effect(key, targets)->0
}

proof fn lemma_changed(hand: Seq<Card>, places: Seq<usize>, f: spec_fn(Card) -> Card, n: nat)
    requires
        n <= places.len(),
        places.no_duplicates(),
        forall|k: int| 0 <= k < places.len() ==> #[trigger] places[k] < hand.len(),
    ensures
        changed_in(hand, changed(hand, places, f, n), places.take(n as int), f),
    decreases n,
{
    if n == 0 {
        assert(places.take(0).len() == 0);
    } else {
        lemma_changed(hand, places, f, (n - 1) as nat);
        let before = changed(hand, places, f, (n - 1) as nat);
        let now = changed(hand, places, f, n);
        let p = places[n - 1];
        let old_places = places.take(n - 1);
        let new_places = places.take(n as int);
        assert(new_places =~= old_places.push(p));
        assert(!old_places.contains(p)) by {
            if old_places.contains(p) {
                let k = choose|k: int| 0 <= k < old_places.len() && old_places[k] == p;
                assert(places[k] == places[n - 1]);
            }
        }
        assert(before[p as int] == hand[p as int]);
        assert forall|k: usize| k < hand.len() implies #[trigger] now[k as int] == if new_places.contains(
            k,
        ) {
            f(hand[k as int])
        } else {
            hand[k as int]
        } by {
            assert(before[k as int] == if old_places.contains(k) {
                f(hand[k as int])
            } else {
                hand[k as int]
            });
            if old_places.contains(k) {
                let j = choose|j: int| 0 <= j < old_places.len() && old_places[j] == k;
                assert(new_places[j] == k);
            }
            if k == p {
                assert(new_places[n - 1] == k);
            } else if new_places.contains(k) {
                let j = choose|j: int| 0 <= j < new_places.len() && new_places[j] == k;
                assert(old_places[j] == k);
            }
        }
    }
}

proof fn lemma_changed_all(hand: Seq<Card>, places: Seq<usize>, f: spec_fn(Card) -> Card)
    requires
        places.no_duplicates(),
        forall|k: int| 0 <= k < places.len() ==> #[trigger] places[k] < hand.len(),
    ensures
        changed_in(hand, changed(hand, places, f, places.len()), places, f),
{
    lemma_changed(hand, places, f, places.len());
    assert(places.take(places.len() as int) =~= places);
}

// ---- Tarot cards that change chosen cards --------------------------------

/// The Tarot cards that enhance: every chosen card gets the enhancement, and no
/// other card changes.
#[verifier::rlimit(40)]
pub proof fn law_tarots_enhance_the_chosen_cards(m: RunModel, i: usize, targets: Seq<usize>)
    ensures
        uses(m, i, targets, "c_magician"@) ==> changed_in(
            m.hand,
            after(m, i, targets).hand,
            targets,
            |c: Card| Card { enhancement: Enhancement::Lucky, ..c },
        ),
        uses(m, i, targets, "c_empress"@) ==> changed_in(
            m.hand,
            after(m, i, targets).hand,
            targets,
            |c: Card| Card { enhancement: Enhancement::Mult, ..c },
        ),
        uses(m, i, targets, "c_heirophant"@) ==> changed_in(
            m.hand,
            after(m, i, targets).hand,
            targets,
            |c: Card| Card { enhancement: Enhancement::Bonus, ..c },
        ),
        uses(m, i, targets, "c_lovers"@) ==> changed_in(
            m.hand,
            after(m, i, targets).hand,
            targets,
            |c: Card| Card { enhancement: Enhancement::Wild, ..c },
        ),
        uses(m, i, targets, "c_chariot"@) ==> changed_in(
            m.hand,
            after(m, i, targets).hand,
            targets,
            |c: Card| Card { enhancement: Enhancement::Steel, ..c },
        ),
        uses(m, i, targets, "c_justice"@) ==> changed_in(
            m.hand,
            after(m, i, targets).hand,
            targets,
            |c: Card| Card { enhancement: Enhancement::Glass, ..c },
        ),
        uses(m, i, targets, "c_devil"@) ==> changed_in(
            m.hand,
            after(m, i, targets).hand,
            targets,
            |c: Card| Card { enhancement: Enhancement::Gold, ..c },
        ),
        uses(m, i, targets, "c_tower"@) ==> changed_in(
            m.hand,
            after(m, i, targets).hand,
            targets,
            |c: Card| Card { enhancement: Enhancement::Stone, ..c },
        ),
{
    lemma_consumable_marks();
    if i < m.consumables.len() && m.consumable_used(i, targets).refusal is None {
        let key = m.consumables[i as int].key@;
        let n = lemma_use(m, i, targets, key);
        reveal(RunModel::target_effect);
        if tarots::given_enhancement(key) is Some {
            let enhancement = tarots::given_enhancement(key)->0;
            lemma_changed_all(m.hand, targets, |c: Card| Card { enhancement, ..c });
        }
    }
}

/// The Tarot cards that change suits: every chosen card gets the suit, and no
/// other card changes.
#[verifier::rlimit(40)]
pub proof fn law_tarots_change_the_suit_of_the_chosen_cards(
    m: RunModel,
    i: usize,
    targets: Seq<usize>,
)
    ensures
        uses(m, i, targets, "c_star"@) ==> changed_in(
            m.hand,
            after(m, i, targets).hand,
            targets,
            |c: Card| Card { suit: Suit::Diamonds, ..c },
        ),
        uses(m, i, targets, "c_moon"@) ==> changed_in(
            m.hand,
            after(m, i, targets).hand,
            targets,
            |c: Card| Card { suit: Suit::Clubs, ..c },
        ),
        uses(m, i, targets, "c_sun"@) ==> changed_in(
            m.hand,
            after(m, i, targets).hand,
            targets,
            |c: Card| Card { suit: Suit::Hearts, ..c },
        ),
        uses(m, i, targets, "c_world"@) ==> changed_in(
            m.hand,
            after(m, i, targets).hand,
            targets,
            |c: Card| Card { suit: Suit::Spades, ..c },
        ),
{
    lemma_consumable_marks();
    if i < m.consumables.len() && m.consumable_used(i, targets).refusal is None {
        let key = m.consumables[i as int].key@;
        let n = lemma_use(m, i, targets, key);
        reveal(RunModel::target_effect);
        if tarots::given_suit(key) is Some {
            let suit = tarots::given_suit(key)->0;
            lemma_changed_all(m.hand, targets, |c: Card| Card { suit, ..c });
        }
    }
}

/// The next rank up: 2 to 10, then Jack, Queen, King and Ace (11 to 14), and the 2
/// after the Ace.
pub open spec fn one_rank_up(r: int) -> int {
    if r == 14 {
        2
    } else {
        r + 1
    }
}

/// Strength raises every chosen card by one rank.
#[verifier::rlimit(40)]
pub proof fn law_strength_raises_the_chosen_cards(
    m: RunModel,
    i: usize,
    targets: Seq<usize>,
    k: usize,
)
    requires
        uses(m, i, targets, "c_strength"@),
        k < m.hand.len(),
        2 <= m.hand[k as int].rank.0 <= 14,
    ensures
        after(m, i, targets).hand.len() == m.hand.len(),
        ({
            let c = after(m, i, targets).hand[k as int];
            let was = m.hand[k as int];
            if targets.contains(k) {
                c == Card { rank: c.rank, ..was } && c.rank.0 == one_rank_up(was.rank.0 as int)
            } else {
                c == was
            }
        }),
{
    lemma_consumable_marks();
    let n = lemma_use(m, i, targets, "c_strength"@);
    reveal(RunModel::target_effect);
    let f = |c: Card| Card { rank: tarots::next_rank(c.rank), ..c };
    lemma_changed_all(m.hand, targets, f);
    assert(changed_in(m.hand, n.hand, targets, f));
    assert(n.hand[k as int] == if targets.contains(k) {
        f(m.hand[k as int])
    } else {
        m.hand[k as int]
    });
}

/// Death turns the left of two chosen cards into the right one: the right card
/// stays as it is, and the left one gets its rank, suit, enhancement, edition,
/// seal and bonus.
#[verifier::rlimit(40)]
pub proof fn law_death_turns_the_left_card_into_the_right(
    m: RunModel,
    i: usize,
    targets: Seq<usize>,
    a: usize,
    b: usize,
)
    requires
        uses(m, i, targets, "c_death"@),
        targets == seq![a, b] || targets == seq![b, a],
        a < b,
    ensures
        b < m.hand.len(),
        after(m, i, targets).hand.len() == m.hand.len(),
        ({
            let left = after(m, i, targets).hand[a as int];
            let right = after(m, i, targets).hand[b as int];
            let was = m.hand[b as int];
            &&& right == was
            &&& left.rank == was.rank && left.suit == was.suit
            &&& left.enhancement == was.enhancement && left.edition == was.edition
            &&& left.seal == was.seal && left.perma_bonus == was.perma_bonus
            &&& left.sort_id == m.hand[a as int].sort_id
        }),
        forall|k: usize|
            k < m.hand.len() && k != a && k != b ==> #[trigger] after(
                m,
                i,
                targets,
            ).hand[k as int] == m.hand[k as int],
{
    lemma_consumable_marks();
    let n = lemma_use(m, i, targets, "c_death"@);
    reveal(RunModel::target_effect);
    reveal_with_fuel(tarots::rightmost, 3);
    assert(targets[0] < m.hand.len() && targets[1] < m.hand.len());
    let f = tarots::turned_into(m.hand[b as int]);
    lemma_changed_all(m.hand, targets, f);
    assert(changed_in(m.hand, n.hand, targets, f));
    assert(targets.contains(a)) by {
        assert(targets[0] == a || targets[1] == a);
    }
    assert(targets.contains(b)) by {
        assert(targets[0] == b || targets[1] == b);
    }
    assert(n.hand[a as int] == f(m.hand[a as int]));
    assert(n.hand[b as int] == f(m.hand[b as int]));
    assert forall|k: usize| k < m.hand.len() && k != a && k != b implies #[trigger] n.hand[k as int]
        == m.hand[k as int] by {
        assert(!targets.contains(k));
    }
}

/// The Spectral cards that seal: the chosen card gets the seal, and no other card
/// changes.
#[verifier::rlimit(40)]
pub proof fn law_spectrals_seal_the_chosen_card(m: RunModel, i: usize, targets: Seq<usize>, p: usize)
    requires
        targets == seq![p],
    ensures
        uses(m, i, targets, "c_talisman"@) ==> changed_in(
            m.hand,
            after(m, i, targets).hand,
            targets,
            |c: Card| Card { seal: Seal::Gold, ..c },
        ),
        uses(m, i, targets, "c_deja_vu"@) ==> changed_in(
            m.hand,
            after(m, i, targets).hand,
            targets,
            |c: Card| Card { seal: Seal::Red, ..c },
        ),
        uses(m, i, targets, "c_trance"@) ==> changed_in(
            m.hand,
            after(m, i, targets).hand,
            targets,
            |c: Card| Card { seal: Seal::Blue, ..c },
        ),
        uses(m, i, targets, "c_medium"@) ==> changed_in(
            m.hand,
            after(m, i, targets).hand,
            targets,
            |c: Card| Card { seal: Seal::Purple, ..c },
        ),
{
    lemma_consumable_marks();
    if i < m.consumables.len() && m.consumable_used(i, targets).refusal is None {
        let key = m.consumables[i as int].key@;
        let n = lemma_use(m, i, targets, key);
        reveal(RunModel::target_effect);
        assert(targets[0] == p);
        assert(targets[0] < m.hand.len());
        assert forall|k: usize| targets.contains(k) <==> k == p by {
            assert(targets[0] == p);
        }
    }
}

// ---- hands that get better -----------------------------------------------

/// Whether a table of hands differs from another by one level of one hand.
pub open spec fn one_level_up(
    before: scoring::HandsTable,
    now: scoring::HandsTable,
    hand: HandType,
) -> bool {
    &&& now.row(hand).level == before.row(hand).level.wrapping_add(1)
    &&& now.row(hand).played == before.row(hand).played
    &&& forall|other: HandType| other != hand ==> #[trigger] now.row(other) == before.row(other)
}

proof fn lemma_leveled(hands: scoring::HandsTable, ht: HandType)
    requires
        hands.row(ht).level < u32::MAX,
    ensures
        one_level_up(hands, hands.leveled_up(ht, 1), ht),
{
    let row = hands.row(ht);
    let up = row.at_level(ht, row.level_after(1));
    assert forall|other: HandType| other != ht implies #[trigger] hands.leveled_up(ht, 1).row(other)
        == hands.row(other) by {
        crate::perhand::law_with_changes_one_hand(hands.rows, ht, other, up);
    }
    crate::perhand::law_with_changes_one_hand(hands.rows, ht, ht, up);
}

/// Each planet raises its own hand by one level and no other.
#[verifier::rlimit(40)]
pub proof fn law_planets_raise_their_hand(m: RunModel, i: usize, targets: Seq<usize>)
    requires
        forall|ht: HandType| (#[trigger] m.record.hands.row(ht)).level < u32::MAX,
    ensures
        ({
            let raises = |key: Seq<char>, ht: HandType|
                uses(m, i, targets, key) ==> one_level_up(
                    m.record.hands,
                    after(m, i, targets).record.hands,
                    ht,
                );
            &&& raises("c_pluto"@, HandType::HighCard)
            &&& raises("c_mercury"@, HandType::Pair)
            &&& raises("c_uranus"@, HandType::TwoPair)
            &&& raises("c_venus"@, HandType::ThreeOfAKind)
            &&& raises("c_saturn"@, HandType::Straight)
            &&& raises("c_jupiter"@, HandType::Flush)
            &&& raises("c_earth"@, HandType::FullHouse)
            &&& raises("c_mars"@, HandType::FourOfAKind)
            &&& raises("c_neptune"@, HandType::StraightFlush)
            &&& raises("c_planet_x"@, HandType::FiveOfAKind)
            &&& raises("c_ceres"@, HandType::FlushHouse)
            &&& raises("c_eris"@, HandType::FlushFive)
        }),
{
    assert forall|key: Seq<char>|
        #[trigger] uses(m, i, targets, key) && items::planet_hand(
            key,
        ) is Some implies one_level_up(
        m.record.hands,
        after(m, i, targets).record.hands,
        items::planet_hand(key)->0,
    ) by {
        lemma_planet(m, i, targets, key);
    }
    assert(items::planet_hand("c_pluto"@) == Some(HandType::HighCard) && items::planet_hand(
        "c_mercury"@,
    ) == Some(HandType::Pair) && items::planet_hand("c_uranus"@) == Some(HandType::TwoPair)
        && items::planet_hand("c_venus"@) == Some(HandType::ThreeOfAKind) && items::planet_hand(
        "c_saturn"@,
    ) == Some(HandType::Straight) && items::planet_hand("c_jupiter"@) == Some(HandType::Flush)
        && items::planet_hand("c_earth"@) == Some(HandType::FullHouse) && items::planet_hand(
        "c_mars"@,
    ) == Some(HandType::FourOfAKind) && items::planet_hand("c_neptune"@) == Some(
        HandType::StraightFlush,
    ) && items::planet_hand("c_planet_x"@) == Some(HandType::FiveOfAKind) && items::planet_hand(
        "c_ceres"@,
    ) == Some(HandType::FlushHouse) && items::planet_hand("c_eris"@) == Some(
        HandType::FlushFive,
    )) by {
        lemma_consumable_marks();
    }
}

#[verifier::rlimit(40)]
proof fn lemma_planet(m: RunModel, i: usize, targets: Seq<usize>, key: Seq<char>)
    requires
        uses(m, i, targets, key),
        items::planet_hand(key) is Some,
        forall|ht: HandType| (#[trigger] m.record.hands.row(ht)).level < u32::MAX,
    ensures
        one_level_up(
            m.record.hands,
            after(m, i, targets).record.hands,
            items::planet_hand(key)->0,
        ),
{
    let n = lemma_use(m, i, targets, key);
    let base = m.without_consumable(i as nat).use_counted(key);
    assert(base.target_effect(key, targets) is None) by {
        lemma_consumable_marks();
        reveal(RunModel::target_effect);
    }
    assert(base.hand_effect(key, targets) is None) by {
        lemma_consumable_marks();
        reveal(RunModel::hand_effect);
    }
    assert(base.wealth_effect(key) is None) by {
        lemma_consumable_marks();
        reveal(RunModel::wealth_effect);
    }
    assert(base.joker_effect(key) is None) by {
        lemma_consumable_marks();
        reveal(RunModel::joker_effect);
    }
    assert(n.record.hands == base.record.hands.leveled_up(items::planet_hand(key)->0, 1)) by {
        assert(key != "c_black_hole"@) by {
            lemma_consumable_marks();
        }
        reveal(RunModel::level_effect);
    }
    lemma_leveled(m.record.hands, items::planet_hand(key)->0);
}

// ---- money ---------------------------------------------------------------

/// What pays does nothing to cards.
#[verifier::spinoff_prover]
proof fn lemma_no_cards_chosen(x: RunModel, key: Seq<char>, targets: Seq<usize>)
    requires
        key == "c_hermit"@ || key == "c_temperance"@ || key == "c_fool"@ || key == "c_wraith"@ || key
            == "c_black_hole"@,
    ensures
        x.target_effect(key, targets) is None,
        x.hand_effect(key, targets) is None,
{
    assert(x.target_effect(key, targets) is None) by {
        lemma_consumable_marks();
        reveal(RunModel::target_effect);
    }
    assert(x.hand_effect(key, targets) is None) by {
        lemma_consumable_marks();
        reveal(RunModel::hand_effect);
    }
}

/// The Hermit doubles the money, by 20 dollars at most; without money it does
/// nothing.
#[verifier::rlimit(40)]
pub proof fn law_the_hermit_doubles_money(m: RunModel, i: usize, targets: Seq<usize>)
    requires
        uses(m, i, targets, "c_hermit"@),
        m.purse.dollars <= i64::MAX - 20,
    ensures
        after(m, i, targets).purse.dollars == m.purse.dollars + (if m.purse.dollars < 0 {
            0
        } else if m.purse.dollars > 20 {
            20
        } else {
            m.purse.dollars as int
        }),
{
    let n = lemma_use(m, i, targets, "c_hermit"@);
    let base = m.without_consumable(i as nat).use_counted("c_hermit"@);
    lemma_no_cards_chosen(base, "c_hermit"@, targets);
    lemma_consumable_marks();
    reveal(RunModel::wealth_effect);
}

// ---- whole hands ---------------------------------------------------------

pub open spec fn with_suit(suit: Suit) -> spec_fn(Card) -> Card {
    |c: Card| Card { suit, ..c }
}

pub open spec fn with_rank(rank: Rank) -> spec_fn(Card) -> Card {
    |c: Card| Card { rank, ..c }
}

/// Sigil gives all cards in hand one suit, and Ouija one rank, for a smaller hand.
#[verifier::rlimit(40)]
pub proof fn law_sigil_and_ouija_make_cards_alike(m: RunModel, i: usize, targets: Seq<usize>)
    ensures
        uses(m, i, targets, "c_sigil"@) ==> exists|suit: Suit|
            changed_in(
                m.hand,
                after(m, i, targets).hand,
                all_places(m.hand),
                #[trigger] with_suit(suit),
            ),
        uses(m, i, targets, "c_ouija"@) ==> (exists|rank: Rank|
            2 <= rank.0 <= 14 && changed_in(
                m.hand,
                after(m, i, targets).hand,
                all_places(m.hand),
                #[trigger] with_rank(rank),
            )) && after(m, i, targets).round.hand_size == m.round.hand_size.wrapping_sub(1),
{
    lemma_consumable_marks();
    if i < m.consumables.len() && m.consumable_used(i, targets).refusal is None {
        let key = m.consumables[i as int].key@;
        let n = lemma_use(m, i, targets, key);
        reveal(RunModel::target_effect);
        reveal(RunModel::hand_effect);
        assert forall|k: usize| k < m.hand.len() implies all_places(m.hand).contains(k) by {
            assert(all_places(m.hand)[k as int] == k);
        }
        if key == "c_sigil"@ {
            let suit = tarots::drawn_suit(m.s.place("sigil"@, 4));
            assert(changed_in(m.hand, n.hand, all_places(m.hand), with_suit(suit)));
        }
        if key == "c_ouija"@ {
            let rank = Rank((2 + m.s.place("ouija"@, 13)) as u8);
            crate::rng::law_places_are_drawn(m.s, "ouija"@, 13);
            assert(changed_in(m.hand, n.hand, all_places(m.hand), with_rank(rank)));
        }
    }
}

/// All places of a hand.
pub open spec fn all_places(hand: Seq<Card>) -> Seq<usize> {
    Seq::new(hand.len(), |k: int| k as usize)
}

/// Cryptid makes two more cards like the chosen one, with new numbers.
#[verifier::rlimit(40)]
pub proof fn law_cryptid_makes_two_copies(m: RunModel, i: usize, p: usize)
    requires
        uses(m, i, seq![p], "c_cryptid"@),
    ensures
        ({
            let now = after(m, i, seq![p]).hand;
            let c = m.hand[p as int];
            &&& now.len() == m.hand.len() + 2
            &&& forall|k: int| 0 <= k < m.hand.len() ==> #[trigger] now[k] == m.hand[k]
            &&& forall|k: int|
                m.hand.len() <= k < now.len() ==> #[trigger] now[k] == (Card {
                    sort_id: now[k].sort_id,
                    ..c
                })
        }),
{
    lemma_consumable_marks();
    let targets = seq![p];
    let n = lemma_use(m, i, targets, "c_cryptid"@);
    reveal(RunModel::target_effect);
    reveal(RunModel::hand_effect);
    assert(targets[0] < m.hand.len());
}

// ---- cards that go and come ----------------------------------------------

/// The Hanged Man destroys the chosen cards and no others.
#[verifier::rlimit(40)]
pub proof fn law_the_hanged_man_destroys_the_chosen_cards(m: RunModel, i: usize, targets: Seq<usize>)
    requires
        uses(m, i, targets, "c_hanged_man"@),
        m.hand.len() <= usize::MAX,
    ensures
        after(m, i, targets).hand == kept_cards(m.hand, targets, m.hand.len()),
        after(m, i, targets).destroyed_cards.len() == m.destroyed_cards.len() + targets.len(),
{
    lemma_consumable_marks();
    let n = lemma_use(m, i, targets, "c_hanged_man"@);
    reveal(RunModel::target_effect);
    reveal(RunModel::hand_effect);
    let sel = crate::order::sorted(targets, scoring::place_leq());
    crate::order::lemma_sorted_permutes(targets, scoring::place_leq());
    broadcast use vstd::seq_lib::group_to_multiset_ensures;

    targets.to_multiset_ensures();
    sel.to_multiset_ensures();
    assert forall|x: usize| #[trigger] sel.contains(x) <==> targets.contains(x) by {
        assert(sel.contains(x) <==> sel.to_multiset().count(x) > 0);
        assert(targets.contains(x) <==> targets.to_multiset().count(x) > 0);
    }
    assert(sel.len() == targets.len());
    lemma_kept_cards(m.hand, targets, sel, m.hand.len());
}

/// The cards among the first `n` that stand in none of some places.
pub open spec fn kept_cards(hand: Seq<Card>, places: Seq<usize>, n: nat) -> Seq<Card>
    decreases n,
{
    if n == 0 {
        seq![]
    } else if places.contains((n - 1) as usize) {
        kept_cards(hand, places, (n - 1) as nat)
    } else {
        kept_cards(hand, places, (n - 1) as nat).push(hand[n - 1])
    }
}

proof fn lemma_kept_cards(hand: Seq<Card>, places: Seq<usize>, sel: Seq<usize>, n: nat)
    requires
        forall|x: usize| #[trigger] sel.contains(x) <==> places.contains(x),
    ensures
        play::left(hand, sel, n) == kept_cards(hand, places, n),
    decreases n,
{
    if n > 0 {
        lemma_kept_cards(hand, places, sel, (n - 1) as nat);
        assert(sel.contains((n - 1) as usize) <==> places.contains((n - 1) as usize));
    }
}

/// Temperance pays what the jokers sell for, together, up to 50 dollars.
#[verifier::rlimit(40)]
pub proof fn law_temperance_pays_what_jokers_are_worth(m: RunModel, i: usize, targets: Seq<usize>)
    requires
        uses(m, i, targets, "c_temperance"@),
        0 <= m.purse.dollars < 1_000_000_000,
        m.jokers.len() <= 1,
        m.jokers.len() == 1 ==> 0 <= m.joker_worth(m.jokers[0]) < 1_000_000_000,
    ensures
        ({
            let worth = if m.jokers.len() == 0 {
                0int
            } else {
                m.joker_worth(m.jokers[0]) as int
            };
            after(m, i, targets).purse.dollars == m.purse.dollars + (if worth < 50 {
                worth
            } else {
                50
            })
        }),
{
    let n = lemma_use(m, i, targets, "c_temperance"@);
    let base = m.without_consumable(i as nat).use_counted("c_temperance"@);
    lemma_no_cards_chosen(base, "c_temperance"@, targets);
    lemma_consumable_marks();
    reveal(RunModel::wealth_effect);
    reveal_with_fuel(RunModel::jokers_worth, 2);
}

/// The Fool makes the Tarot or Planet card that was used last, if there is room.
#[verifier::rlimit(40)]
pub proof fn law_the_fool_makes_the_last_card(
    m: RunModel,
    i: usize,
    targets: Seq<usize>,
    key: &'static str,
)
    requires
        uses(m, i, targets, "c_fool"@),
        m.record.last_tarot_planet == Some(key),
        m.consumables.len() <= m.limits.consumable_slots,
        !m.consumables[i as int].negative,
    ensures
        after(m, i, targets).consumables.len() == m.consumables.len(),
        after(m, i, targets).consumables.last().key == key,
{
    let n = lemma_use(m, i, targets, "c_fool"@);
    let base = m.without_consumable(i as nat).use_counted("c_fool"@);
    lemma_no_cards_chosen(base, "c_fool"@, targets);
    lemma_consumable_marks();
    reveal(RunModel::wealth_effect);
}

/// The Black Hole raises every hand by one level.
#[verifier::rlimit(40)]
pub proof fn law_the_black_hole_raises_every_hand(
    m: RunModel,
    i: usize,
    targets: Seq<usize>,
    ht: HandType,
)
    requires
        uses(m, i, targets, "c_black_hole"@),
        forall|h: HandType| (#[trigger] m.record.hands.row(h)).level < u32::MAX,
    ensures
        after(m, i, targets).record.hands.row(ht).level == m.record.hands.row(ht).level + 1,
{
    let n = lemma_use(m, i, targets, "c_black_hole"@);
    let key = "c_black_hole"@;
    let base = m.without_consumable(i as nat).use_counted(key);
    lemma_no_cards_chosen(base, key, targets);
    assert(base.wealth_effect(key) is None) by {
        lemma_consumable_marks();
        reveal(RunModel::wealth_effect);
    }
    assert(base.joker_effect(key) is None) by {
        lemma_consumable_marks();
        reveal(RunModel::joker_effect);
    }
    reveal(RunModel::level_effect);
    lemma_all_raised(m.record.hands, ht, 12);
    assert(ht.place() < 12);
}

proof fn lemma_all_raised(hands: scoring::HandsTable, ht: HandType, n: nat)
    requires
        n <= 12,
        forall|h: HandType| (#[trigger] hands.row(h)).level < u32::MAX,
    ensures
        crate::usage::all_raised(hands, n).row(ht).level == hands.row(ht).level + (if ht.place()
            < n {
            1int
        } else {
            0
        }),
    decreases n,
{
    if n > 0 {
        let other = HandType::ALL[n - 1];
        lemma_all_raised(hands, ht, (n - 1) as nat);
        lemma_all_raised(hands, other, (n - 1) as nat);
        assert(other.place() == n - 1);
        lemma_leveled(crate::usage::all_raised(hands, (n - 1) as nat), other);
        let before = crate::usage::all_raised(hands, (n - 1) as nat);
        assert(before.leveled_up(other, 1).row(ht) == if ht == other {
            before.leveled_up(other, 1).row(other)
        } else {
            before.row(ht)
        });
        assert(ht.place() == n - 1 <==> ht == other);
    }
}

/// Immolate pays 20 dollars, and the Wraith takes all money.
#[verifier::rlimit(40)]
pub proof fn law_immolate_pays(m: RunModel, i: usize, targets: Seq<usize>)
    requires
        0 <= m.purse.dollars < 1_000_000_000,
    ensures
        uses(m, i, targets, "c_immolate"@) ==> after(m, i, targets).purse.dollars
            == m.purse.dollars + 20,
        uses(m, i, targets, "c_wraith"@) ==> after(m, i, targets).purse.dollars == 0,
{
    if i < m.consumables.len() && m.consumable_used(i, targets).refusal is None {
        let key = m.consumables[i as int].key@;
        let n = lemma_use(m, i, targets, key);
        let base = m.without_consumable(i as nat).use_counted(key);
        if key == "c_immolate"@ {
            assert(base.target_effect(key, targets) is None) by {
                lemma_consumable_marks();
                reveal(RunModel::target_effect);
            }
            lemma_consumable_marks();
            reveal(RunModel::hand_effect);
            let b = base.after("immolate"@);
            let cards = crate::deck::shuffled(base.hand, base.s.drawn_seed("immolate"@));
            lemma_burned_money(
                b,
                cards,
                if base.hand.len() < 5 {
                    base.hand.len()
                } else {
                    5
                },
            );
        }
        if key == "c_wraith"@ {
            lemma_no_cards_chosen(base, key, targets);
            assert(base.wealth_effect(key) is None) by {
                lemma_consumable_marks();
                reveal(RunModel::wealth_effect);
            }
            lemma_consumable_marks();
            reveal(RunModel::joker_effect);
        }
    }
}

proof fn lemma_burned_money(m: RunModel, cards: Seq<Card>, n: nat)
    ensures
        m.burned(cards, n).purse == m.purse,
    decreases n,
{
    if n > 0 {
        lemma_burned_money(m, cards, (n - 1) as nat);
    }
}

/// Familiar makes three faces, Grim two Aces, and Incantation four cards from 2 to
/// 10, all enhanced with something but stone.
pub proof fn law_spectrals_create_cards_of_their_ranks(m: RunModel, kind: tarots::CreateKind)
    ensures
        ({
            let now = m.one_created(kind).hand;
            let c = now.last();
            &&& now.len() == m.hand.len() + 1
            &&& kind == tarots::CreateKind::Familiar ==> 11 <= c.rank.0 <= 13
            &&& kind == tarots::CreateKind::Grim ==> c.rank.0 == 14
            &&& kind == tarots::CreateKind::Incantation ==> 2 <= c.rank.0 <= 10
        }),
{
    crate::rng::law_places_are_drawn(m.s, kind.stream()@, kind.ranks());
}

proof fn lemma_created_count(m: RunModel, kind: tarots::CreateKind, n: nat)
    ensures
        m.many_created(kind, n).hand.len() == m.hand.len() + n,
    decreases n,
{
    if n > 0 {
        lemma_created_count(m, kind, (n - 1) as nat);
        law_spectrals_create_cards_of_their_ranks(m.many_created(kind, (n - 1) as nat), kind);
    }
}

/// After the card that goes, Familiar makes three cards, Grim two and Incantation
/// four.
#[verifier::rlimit(40)]
pub proof fn law_how_many_cards_spectrals_create(m: RunModel, i: usize, targets: Seq<usize>)
    ensures
        ({
            let base = |key: Seq<char>|
                m.without_consumable(i as nat).use_counted(key).one_destroyed().hand.len();
            let now = after(m, i, targets).hand.len();
            &&& uses(m, i, targets, "c_familiar"@) ==> now == base("c_familiar"@) + 3
            &&& uses(m, i, targets, "c_grim"@) ==> now == base("c_grim"@) + 2
            &&& uses(m, i, targets, "c_incantation"@) ==> now == base("c_incantation"@) + 4
        }),
{
    if i < m.consumables.len() && m.consumable_used(i, targets).refusal is None {
        let key = m.consumables[i as int].key@;
        let n = lemma_use(m, i, targets, key);
        let base = m.without_consumable(i as nat).use_counted(key);
        if key == "c_familiar"@ || key == "c_grim"@ || key == "c_incantation"@ {
            assert(base.target_effect(key, targets) is None) by {
                lemma_consumable_marks();
                reveal(RunModel::target_effect);
            }
            lemma_consumable_marks();
            reveal(RunModel::hand_effect);
            let d = base.one_destroyed();
            lemma_created_count(d, tarots::CreateKind::Familiar, 3);
            lemma_created_count(d, tarots::CreateKind::Grim, 2);
            lemma_created_count(d, tarots::CreateKind::Incantation, 4);
        }
    }
}

/// The Emperor is two draws of Tarot cards and the High Priestess two of Planet cards,
/// each where there is room.
#[verifier::rlimit(40)]
pub proof fn law_emperor_and_priestess_draw_twice(m: RunModel, i: usize, targets: Seq<usize>)
    ensures
        ({
            let now = after(m, i, targets).consumables;
            let base = m.without_consumable(i as nat);
            let room = base.limits.consumable_slots - base.consumables.len();
            let gained = now.len() - base.consumables.len();
            let twice = gained == (if room >= 2 {
                2
            } else if room == 1 {
                1
            } else {
                0int
            });
            &&& uses(m, i, targets, "c_emperor"@) ==> twice && (gained > 0
                ==> crate::laws_of_pools::of_set(items::ConsumableSet::Tarot, now.last().key))
            &&& uses(m, i, targets, "c_high_priestess"@) ==> twice && (gained > 0
                ==> crate::laws_of_pools::of_set(items::ConsumableSet::Planet, now.last().key))
        }),
{
    if i < m.consumables.len() && m.consumable_used(i, targets).refusal is None {
        let key = m.consumables[i as int].key@;
        if key == "c_emperor"@ || key == "c_high_priestess"@ {
            let n = lemma_use(m, i, targets, key);
            let x = m.without_consumable(i as nat).use_counted(key);
            assert(x.target_effect(key, targets) is None) by {
                lemma_consumable_marks();
                reveal(RunModel::target_effect);
            }
            assert(x.hand_effect(key, targets) is None) by {
                lemma_consumable_marks();
                reveal(RunModel::hand_effect);
            }
            let set = if key == "c_emperor"@ {
                items::ConsumableSet::Tarot
            } else {
                items::ConsumableSet::Planet
            };
            let append = if key == "c_emperor"@ {
                "emp"
            } else {
                "pri"
            };
            assert(n == x.supplied(set, append).supplied(set, append)) by {
                lemma_consumable_marks();
                reveal(RunModel::wealth_effect);
            }
            crate::laws_of_pools::law_supplied_consumables_are_of_their_set(x, set, append);
            crate::laws_of_pools::law_supplied_consumables_are_of_their_set(
                x.supplied(set, append),
                set,
                append,
            );
            assert(x.supplied(set, append).limits == x.limits) by {
                reveal(RunModel::consumable_drawn);
            }
            assert("c_emperor"@ != "c_high_priestess"@) by {
                lemma_consumable_marks();
            }
        }
    }
}

} // verus!
