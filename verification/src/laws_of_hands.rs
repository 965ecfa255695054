//! Which poker hand a selection of cards is, by how many of its cards share a
//! suit or a rank.
use crate::cards::{Card, Enhancement, HandType, Suit};
use crate::double::Double;
use crate::handeval::{
    flush_groups, group_ranks, hand_groups, has_rank, has_run, highest_to,
    law_every_selection_is_a_hand, law_hands_contain_lower_hands, law_straight_is_a_run_of_ranks,
    lemma_group_ranks, members, members_to, played_group, played_hand, same_rank, straight_from,
    straight_id, suited, suited_to, top_hand, EvalMods, StraightScan,
};
use vstd::prelude::*;

verus! {

// ---- counting cards ------------------------------------------------------

/// How many of some cards are as asked.
pub open spec fn how_many(cards: Seq<Card>, asked: spec_fn(Card) -> bool) -> nat {
    cards.filter(asked).len()
}

/// Cards of a suit, where suits are asked for a flush.
pub open spec fn of_suit(suit: Suit, smeared: bool) -> spec_fn(Card) -> bool {
    |c: Card| c.suits_flush(suit, smeared)
}

/// Cards of a rank: 11 to 13 for the faces, 14 for the Ace. Stone cards have
/// none.
pub open spec fn of_rank(rank: int) -> spec_fn(Card) -> bool {
    |c: Card| c.enhancement != Enhancement::Stone && c.rank.0 == rank
}

/// Whether some places are those of the cards that are as asked.
pub open spec fn names_all(
    places: Seq<usize>,
    cards: Seq<Card>,
    asked: spec_fn(Card) -> bool,
) -> bool {
    forall|i: usize| #[trigger] places.contains(i) <==> i < cards.len() && asked(cards[i as int])
}

/// How many cards a flush or a straight takes.
pub open spec fn enough(mods: EvalMods) -> int {
    if mods.four_fingers {
        4
    } else {
        5
    }
}

proof fn lemma_one_more(cards: Seq<Card>, asked: spec_fn(Card) -> bool, n: nat)
    requires
        n < cards.len(),
    ensures
        how_many(cards.take(n as int + 1), asked) == how_many(cards.take(n as int), asked) + (
        if asked(cards[n as int]) {
            1nat
        } else {
            0
        }),
{
    reveal(Seq::filter);
    let t = cards.take(n as int + 1);
    assert(t.drop_last() =~= cards.take(n as int));
    assert(t.last() == cards[n as int]);
}

proof fn lemma_suited_to(hand: Seq<Card>, suit: Suit, smeared: bool, n: nat)
    requires
        n <= hand.len() <= usize::MAX,
    ensures
        suited_to(hand, suit, smeared, n).len() == how_many(
            hand.take(n as int),
            of_suit(suit, smeared),
        ),
        forall|i: usize|
            #[trigger] suited_to(hand, suit, smeared, n).contains(i) <==> i < n
                && hand[i as int].suits_flush(suit, smeared),
    decreases n,
{
    if n == 0 {
        reveal(Seq::filter);
    } else {
        lemma_suited_to(hand, suit, smeared, (n - 1) as nat);
        lemma_one_more(hand, of_suit(suit, smeared), (n - 1) as nat);
        let before = suited_to(hand, suit, smeared, (n - 1) as nat);
        let after = suited_to(hand, suit, smeared, n);
        assert forall|i: usize| #[trigger] after.contains(i) <==> i < n
            && hand[i as int].suits_flush(suit, smeared) by {
            lemma_contains_pushed(before, (n - 1) as usize, i);
        }
    }
}

proof fn lemma_contains_pushed(s: Seq<usize>, x: usize, i: usize)
    ensures
        s.push(x).contains(i) <==> s.contains(i) || i == x,
{
    if s.contains(i) {
        let k = choose|k: int| 0 <= k < s.len() && s[k] == i;
        assert(s.push(x)[k] == i);
    }
    assert(s.push(x)[s.len() as int] == x);
    if s.push(x).contains(i) && i != x {
        let k = choose|k: int| 0 <= k < s.push(x).len() && s.push(x)[k] == i;
        assert(s[k] == i);
    }
}

proof fn lemma_suited(hand: Seq<Card>, suit: Suit, smeared: bool)
    requires
        hand.len() <= usize::MAX,
    ensures
        suited(hand, suit, smeared).len() == how_many(hand, of_suit(suit, smeared)),
        forall|i: usize|
            #[trigger] suited(hand, suit, smeared).contains(i) <==> i < hand.len()
                && hand[i as int].suits_flush(suit, smeared),
{
    lemma_suited_to(hand, suit, smeared, hand.len());
    assert(hand.take(hand.len() as int) =~= hand);
}

proof fn lemma_members_to(hand: Seq<Card>, rank: u8, n: nat)
    requires
        n <= hand.len() <= usize::MAX,
    ensures
        members_to(hand, rank, n).len() == how_many(hand.take(n as int), of_rank(rank as int)),
        forall|i: usize|
            #[trigger] members_to(hand, rank, n).contains(i) <==> i < n && of_rank(rank as int)(
                hand[i as int],
            ),
    decreases n,
{
    if n == 0 {
        reveal(Seq::filter);
    } else {
        lemma_members_to(hand, rank, (n - 1) as nat);
        lemma_one_more(hand, of_rank(rank as int), (n - 1) as nat);
        let before = members_to(hand, rank, (n - 1) as nat);
        let after = members_to(hand, rank, n);
        assert forall|i: usize| #[trigger] after.contains(i) <==> i < n && of_rank(rank as int)(
            hand[i as int],
        ) by {
            lemma_contains_pushed(before, (n - 1) as usize, i);
        }
    }
}

proof fn lemma_members(hand: Seq<Card>, rank: u8)
    requires
        hand.len() <= usize::MAX,
    ensures
        members(hand, rank).len() == how_many(hand, of_rank(rank as int)),
        forall|i: usize|
            #[trigger] members(hand, rank).contains(i) <==> i < hand.len() && of_rank(
                rank as int,
            )(hand[i as int]),
{
    lemma_members_to(hand, rank, hand.len());
    assert(hand.take(hand.len() as int) =~= hand);
}

// ---- suits ---------------------------------------------------------------

/// Which suits a card has where a flush is asked for: a Stone card has none, a
/// Wild card has all unless it is debuffed, and every other card has its own;
/// under Smeared Joker also the other suit of its colour.
pub proof fn law_suits_for_a_flush(c: Card)
    ensures
        forall|s: Suit, smeared: bool|
            c.enhancement == Enhancement::Stone ==> !#[trigger] c.suits_flush(s, smeared),
        forall|s: Suit, smeared: bool|
            c.enhancement == Enhancement::Wild && !c.debuff ==> #[trigger] c.suits_flush(
                s,
                smeared,
            ),
        c.enhancement != Enhancement::Stone ==> forall|smeared: bool|
            #[trigger] c.suits_flush(c.suit, smeared),
        (c.enhancement != Enhancement::Wild || c.debuff) ==> forall|s: Suit|
            #[trigger] c.suits_flush(s, false) ==> s == c.suit,
        c.suits_flush(Suit::Hearts, true) == c.suits_flush(Suit::Diamonds, true),
        c.suits_flush(Suit::Spades, true) == c.suits_flush(Suit::Clubs, true),
        (c.enhancement != Enhancement::Wild || c.debuff) ==> !(c.suits_flush(Suit::Hearts, true)
            && c.suits_flush(Suit::Spades, true)),
{
}

/// Which suits a card has where a joker or a blind asks: a Stone card has none, a
/// Wild card has all, and every other card has its own; a debuffed card has
/// none for a joker.
pub proof fn law_suits_for_jokers_and_blinds(c: Card)
    ensures
        forall|s: Suit, smeared: bool|
            c.enhancement == Enhancement::Stone ==> !#[trigger] c.suits_any(s, smeared),
        forall|s: Suit, smeared: bool|
            c.enhancement == Enhancement::Wild ==> #[trigger] c.suits_any(s, smeared),
        c.enhancement != Enhancement::Stone ==> forall|smeared: bool|
            #[trigger] c.suits_any(c.suit, smeared),
        c.enhancement != Enhancement::Wild ==> forall|s: Suit|
            #[trigger] c.suits_any(s, false) ==> s == c.suit,
        c.suits_any(Suit::Hearts, true) == c.suits_any(Suit::Diamonds, true),
        c.suits_any(Suit::Spades, true) == c.suits_any(Suit::Clubs, true),
        c.enhancement != Enhancement::Wild ==> !(c.suits_any(Suit::Hearts, true) && c.suits_any(
            Suit::Spades,
            true,
        )),
        forall|s: Suit, smeared: bool| c.debuff ==> !#[trigger] c.suits_normal(s, smeared),
        forall|s: Suit, smeared: bool|
            !c.debuff ==> #[trigger] c.suits_normal(s, smeared) == c.suits_any(s, smeared),
{
}

// ---- flushes -------------------------------------------------------------

/// A selection holds a flush exactly if it is neither too small nor too large and
/// enough of its cards share a suit, whichever suit that is.
pub proof fn law_flush_is_enough_of_a_suit(hand: Seq<Card>, mods: EvalMods)
    requires
        hand.len() <= usize::MAX,
    ensures
        hand_groups(hand, mods, HandType::Flush).len() > 0 <==> enough(mods) <= hand.len() <= 5
            && exists|s: Suit|
            how_many(hand, #[trigger] of_suit(s, mods.smeared)) >= enough(mods),
        flush_groups(hand, mods) == hand_groups(hand, mods, HandType::Flush),
{
    assert forall|s: Suit|
        how_many(hand, #[trigger] of_suit(s, mods.smeared)) == suited(
            hand,
            s,
            mods.smeared,
        ).len() by {
        lemma_suited(hand, s, mods.smeared);
    }
    let g = flush_groups(hand, mods);
    if g.len() > 0 {
        let spades = of_suit(Suit::Spades, mods.smeared);
        let hearts = of_suit(Suit::Hearts, mods.smeared);
        let clubs = of_suit(Suit::Clubs, mods.smeared);
        let diamonds = of_suit(Suit::Diamonds, mods.smeared);
        assert(how_many(hand, spades) >= enough(mods) || how_many(hand, hearts) >= enough(mods)
            || how_many(hand, clubs) >= enough(mods) || how_many(hand, diamonds) >= enough(mods));
    }
    if enough(mods) <= hand.len() <= 5 && exists|s: Suit|
        how_many(hand, #[trigger] of_suit(s, mods.smeared)) >= enough(mods) {
        let s = choose|s: Suit|
            how_many(hand, #[trigger] of_suit(s, mods.smeared)) >= enough(mods);
        match s {
            Suit::Spades => {},
            Suit::Hearts => {},
            Suit::Clubs => {},
            Suit::Diamonds => {},
        }
    }
}

/// The cards of a flush are all cards of one suit, and nothing but them.
pub proof fn law_flush_holds_its_suit(hand: Seq<Card>, mods: EvalMods)
    requires
        hand.len() <= usize::MAX,
        hand_groups(hand, mods, HandType::Flush).len() > 0,
    ensures
        hand_groups(hand, mods, HandType::Flush).len() == 1,
        exists|s: Suit|
            names_all(
                hand_groups(hand, mods, HandType::Flush)[0],
                hand,
                #[trigger] of_suit(s, mods.smeared),
            ),
{
    let g = hand_groups(hand, mods, HandType::Flush)[0];
    let s = if g == suited(hand, Suit::Spades, mods.smeared) {
        Suit::Spades
    } else if g == suited(hand, Suit::Hearts, mods.smeared) {
        Suit::Hearts
    } else if g == suited(hand, Suit::Clubs, mods.smeared) {
        Suit::Clubs
    } else {
        Suit::Diamonds
    };
    assert(g == suited(hand, s, mods.smeared));
    lemma_suited(hand, s, mods.smeared);
    assert(names_all(g, hand, of_suit(s, mods.smeared)));
}

// ---- cards of a rank -----------------------------------------------------

proof fn lemma_three_ranks(cards: Seq<Card>, r: int, q: int, t: int, n: nat)
    requires
        n <= cards.len(),
        r != q,
        q != t,
        r != t,
    ensures
        how_many(cards.take(n as int), of_rank(r)) + how_many(cards.take(n as int), of_rank(q))
            + how_many(cards.take(n as int), of_rank(t)) <= n,
    decreases n,
{
    if n == 0 {
        reveal(Seq::filter);
    } else {
        lemma_three_ranks(cards, r, q, t, (n - 1) as nat);
        lemma_one_more(cards, of_rank(r), (n - 1) as nat);
        lemma_one_more(cards, of_rank(q), (n - 1) as nat);
        lemma_one_more(cards, of_rank(t), (n - 1) as nat);
    }
}

/// Of up to five cards there are no more than five of two ranks, or of three.
proof fn lemma_few(cards: Seq<Card>, r: int, q: int, t: int)
    requires
        r != q,
        q != t,
        r != t,
    ensures
        how_many(cards, of_rank(r)) + how_many(cards, of_rank(q)) + how_many(cards, of_rank(t))
            <= cards.len(),
{
    lemma_three_ranks(cards, r, q, t, cards.len());
    assert(cards.take(cards.len() as int) =~= cards);
}

proof fn lemma_group_of(num: nat, hand: Seq<Card>, rank: u8, id: u8)
    requires
        0 < rank <= id,
        num > 0,
        members(hand, rank).len() == num,
    ensures
        group_ranks(num, hand, id).contains(rank),
    decreases id,
{
    let all = group_ranks(num, hand, id);
    if rank == id {
        assert(all[0] == id);
    } else {
        lemma_group_of(num, hand, rank, (id - 1) as u8);
        let rest = group_ranks(num, hand, (id - 1) as u8);
        let k = choose|k: int| 0 <= k < rest.len() && rest[k] == rank;
        if all.len() > rest.len() {
            assert(all[k + 1] == rank);
        } else {
            assert(all[k] == rank);
        }
    }
}

proof fn lemma_ranks_descend(num: nat, hand: Seq<Card>, id: u8)
    ensures
        forall|i: int, k: int|
            0 <= i < k < group_ranks(num, hand, id).len() ==> #[trigger] group_ranks(
                num,
                hand,
                id,
            )[i] > #[trigger] group_ranks(num, hand, id)[k],
        forall|i: int|
            0 <= i < group_ranks(num, hand, id).len() ==> 0 < #[trigger] group_ranks(
                num,
                hand,
                id,
            )[i] <= id,
    decreases id,
{
    if id > 0 {
        lemma_ranks_descend(num, hand, (id - 1) as u8);
        let rest = group_ranks(num, hand, (id - 1) as u8);
        let all = group_ranks(num, hand, id);
        if all.len() > rest.len() {
            assert forall|i: int| 0 < i < all.len() implies #[trigger] all[i] == rest[i - 1] by {}
        }
    }
}

/// The groups of so many cards of a rank: one for each rank of which there are
/// so many cards, with all of them, highest rank first.
pub proof fn law_groups_share_a_rank(num: nat, hand: Seq<Card>)
    requires
        hand.len() <= usize::MAX,
        num > 0,
    ensures
        forall|i: int|
            0 <= i < same_rank(num, hand).len() ==> {
                let g = #[trigger] same_rank(num, hand)[i];
                g.len() == num && exists|r: int|
                    1 <= r <= 14 && how_many(hand, #[trigger] of_rank(r)) == num && names_all(
                        g,
                        hand,
                        of_rank(r),
                    )
            },
        forall|r: int|
            1 <= r <= 14 && how_many(hand, #[trigger] of_rank(r)) == num ==> exists|i: int|
                0 <= i < same_rank(num, hand).len() && names_all(
                    #[trigger] same_rank(num, hand)[i],
                    hand,
                    of_rank(r),
                ),
        forall|i: int, k: int|
            0 <= i < k < same_rank(num, hand).len() ==> hand[(#[trigger] same_rank(
                num,
                hand,
            )[i])[0] as int].rank.0 > hand[(#[trigger] same_rank(num, hand)[k])[0] as int].rank.0,
{
    let groups = same_rank(num, hand);
    let ranks = group_ranks(num, hand, 14);
    lemma_group_ranks(num, hand, 14);
    lemma_ranks_descend(num, hand, 14);
    assert forall|i: int| 0 <= i < groups.len() implies {
        let g = #[trigger] groups[i];
        g.len() == num && exists|r: int|
            1 <= r <= 14 && how_many(hand, #[trigger] of_rank(r)) == num && names_all(
                g,
                hand,
                of_rank(r),
            )
    } by {
        let r = ranks[i];
        assert(groups[i] == members(hand, r));
        lemma_members(hand, r);
        assert(how_many(hand, of_rank(r as int)) == num);
    }
    assert forall|r: int| 1 <= r <= 14 && how_many(hand, #[trigger] of_rank(r)) == num implies exists|
        i: int,
    |
        0 <= i < groups.len() && names_all(#[trigger] groups[i], hand, of_rank(r)) by {
        lemma_members(hand, r as u8);
        lemma_group_of(num, hand, r as u8, 14);
        let i = choose|i: int| 0 <= i < ranks.len() && ranks[i] == r;
        assert(groups[i] == members(hand, ranks[i]));
        assert(names_all(groups[i], hand, of_rank(r)));
    }
    assert forall|i: int, k: int| 0 <= i < k < groups.len() implies hand[(#[trigger] groups[i])[
        0
    ] as int].rank.0 > hand[(#[trigger] groups[k])[0] as int].rank.0 by {
        lemma_members(hand, ranks[i]);
        lemma_members(hand, ranks[k]);
        assert(groups[i] == members(hand, ranks[i]));
        assert(groups[k] == members(hand, ranks[k]));
        assert(groups[i].contains(groups[i][0]));
        assert(groups[k].contains(groups[k][0]));
    }
}

/// Whether there are at least so many cards of some rank.
pub open spec fn alike(hand: Seq<Card>, n: nat) -> bool {
    exists|r: int| 1 <= r <= 14 && how_many(hand, #[trigger] of_rank(r)) >= n
}

/// Whether there are at least so many cards of one rank and so many of another.
pub open spec fn two_ranks(hand: Seq<Card>, a: nat, b: nat) -> bool {
    exists|r: int, q: int|
        1 <= r <= 14 && 1 <= q <= 14 && r != q && how_many(hand, #[trigger] of_rank(r)) >= a
            && how_many(hand, #[trigger] of_rank(q)) >= b
}

proof fn lemma_has_group(num: nat, hand: Seq<Card>)
    requires
        hand.len() <= usize::MAX,
        num > 0,
    ensures
        same_rank(num, hand).len() > 0 <==> exists|r: int|
            1 <= r <= 14 && how_many(hand, #[trigger] of_rank(r)) == num,
{
    law_groups_share_a_rank(num, hand);
    if same_rank(num, hand).len() > 0 {
        let g = same_rank(num, hand)[0];
    }
}

/// Five, four, three and two of a kind, of up to five cards: there are as many
/// cards of some rank.
pub proof fn law_kinds_count_ranks(hand: Seq<Card>, mods: EvalMods)
    requires
        hand.len() <= 5,
    ensures
        hand_groups(hand, mods, HandType::FiveOfAKind).len() > 0 <==> alike(hand, 5),
        hand_groups(hand, mods, HandType::FourOfAKind).len() > 0 <==> alike(hand, 4),
        hand_groups(hand, mods, HandType::ThreeOfAKind).len() > 0 <==> alike(hand, 3),
        hand_groups(hand, mods, HandType::Pair).len() > 0 <==> alike(hand, 2),
        hand_groups(hand, mods, HandType::FlushFive).len() > 0 <==> alike(hand, 5) && hand_groups(
            hand,
            mods,
            HandType::Flush,
        ).len() > 0,
{
    lemma_has_group(5, hand);
    lemma_has_group(4, hand);
    lemma_has_group(3, hand);
    lemma_has_group(2, hand);
    assert forall|r: int| how_many(hand, #[trigger] of_rank(r)) <= 5 by {
        lemma_few(hand, r, r + 1, r + 2);
    }
}

proof fn lemma_two_groups(num: nat, hand: Seq<Card>)
    requires
        hand.len() <= 5,
        2 <= num,
    ensures
        same_rank(num, hand).len() <= 2,
        same_rank(num, hand).len() == 2 ==> exists|r: int, q: int|
            1 <= r <= 14 && 1 <= q <= 14 && r != q && how_many(hand, #[trigger] of_rank(r)) == num
                && how_many(hand, #[trigger] of_rank(q)) == num && names_all(
                same_rank(num, hand)[0],
                hand,
                of_rank(r),
            ) && names_all(same_rank(num, hand)[1], hand, of_rank(q)),
        num >= 3 ==> same_rank(num, hand).len() <= 1,
        forall|r: int, q: int|
            1 <= r <= 14 && 1 <= q <= 14 && r != q && how_many(hand, #[trigger] of_rank(r)) == num
                && how_many(hand, #[trigger] of_rank(q)) == num ==> same_rank(num, hand).len()
                == 2,
{
    let groups = same_rank(num, hand);
    let ranks = group_ranks(num, hand, 14);
    lemma_group_ranks(num, hand, 14);
    lemma_ranks_descend(num, hand, 14);
    assert forall|i: int| 0 <= i < ranks.len() implies how_many(
        hand,
        of_rank((#[trigger] ranks[i]) as int),
    ) == num && names_all(groups[i], hand, of_rank(ranks[i] as int)) by {
        lemma_members(hand, ranks[i]);
        assert(groups[i] == members(hand, ranks[i]));
    }
    if ranks.len() >= 3 {
        lemma_few(hand, ranks[0] as int, ranks[1] as int, ranks[2] as int);
    }
    if ranks.len() >= 2 {
        assert(ranks[0] > ranks[1]);
        lemma_few(hand, ranks[0] as int, ranks[1] as int, 0);
        assert(how_many(hand, of_rank(ranks[0] as int)) == num);
        assert(how_many(hand, of_rank(ranks[1] as int)) == num);
    }
    assert forall|r: int, q: int|
        1 <= r <= 14 && 1 <= q <= 14 && r != q && how_many(hand, #[trigger] of_rank(r)) == num
            && how_many(hand, #[trigger] of_rank(q)) == num implies groups.len() == 2 by {
        lemma_members(hand, r as u8);
        lemma_members(hand, q as u8);
        lemma_group_of(num, hand, r as u8, 14);
        lemma_group_of(num, hand, q as u8, 14);
        let i = choose|i: int| 0 <= i < ranks.len() && ranks[i] == r;
        let k = choose|k: int| 0 <= k < ranks.len() && ranks[k] == q;
        assert(i != k);
    }
}

/// Full houses and two pairs, of up to five cards: three of one rank and two of
/// another, and two and two.
pub proof fn law_houses_and_pairs_count_ranks(hand: Seq<Card>, mods: EvalMods)
    requires
        hand.len() <= 5,
    ensures
        hand_groups(hand, mods, HandType::FullHouse).len() > 0 <==> two_ranks(hand, 3, 2),
        hand_groups(hand, mods, HandType::TwoPair).len() > 0 <==> two_ranks(hand, 2, 2),
        hand_groups(hand, mods, HandType::FlushHouse).len() > 0 <==> two_ranks(hand, 3, 2)
            && hand_groups(hand, mods, HandType::Flush).len() > 0,
{
    lemma_has_group(3, hand);
    lemma_has_group(2, hand);
    lemma_two_groups(2, hand);
    lemma_two_groups(3, hand);
    assert forall|r: int, q: int|
        1 <= r && 1 <= q && r != q implies #[trigger] how_many(hand, of_rank(r))
        + #[trigger] how_many(hand, of_rank(q)) <= 5 by {
        lemma_few(hand, r, q, 0);
    }
    let two = same_rank(2, hand);
    let three = same_rank(3, hand);
    if three.len() > 0 && two.len() > 0 {
        let r = choose|r: int| 1 <= r <= 14 && how_many(hand, #[trigger] of_rank(r)) == 3;
        let q = choose|q: int| 1 <= q <= 14 && how_many(hand, #[trigger] of_rank(q)) == 2;
        assert(r != q);
        assert(two_ranks(hand, 3, 2));
        assert(two_ranks(hand, 2, 2));
    }
    if two.len() == 2 {
        assert(two_ranks(hand, 2, 2));
    }
    if two_ranks(hand, 3, 2) {
        let (r, q) = choose|r: int, q: int|
            1 <= r <= 14 && 1 <= q <= 14 && r != q && how_many(hand, #[trigger] of_rank(r)) >= 3
                && how_many(hand, #[trigger] of_rank(q)) >= 2;
        assert(how_many(hand, of_rank(r)) + how_many(hand, of_rank(q)) <= 5);
        assert(how_many(hand, of_rank(r)) == 3);
        assert(how_many(hand, of_rank(q)) == 2);
    }
    if two_ranks(hand, 2, 2) {
        let (r, q) = choose|r: int, q: int|
            1 <= r <= 14 && 1 <= q <= 14 && r != q && how_many(hand, #[trigger] of_rank(r)) >= 2
                && how_many(hand, #[trigger] of_rank(q)) >= 2;
        assert(how_many(hand, of_rank(r)) + how_many(hand, of_rank(q)) <= 5);
        if how_many(hand, of_rank(r)) == 2 && how_many(hand, of_rank(q)) == 2 {
            assert(two.len() == 2);
        } else {
            assert(three.len() > 0 && two.len() > 0);
            if two.len() == 2 {
                let (x, y) = choose|x: int, y: int|
                    1 <= x <= 14 && 1 <= y <= 14 && x != y && how_many(hand, #[trigger] of_rank(x))
                        == 2 && how_many(hand, #[trigger] of_rank(y)) == 2;
                let t = if how_many(hand, of_rank(r)) == 3 {
                    r
                } else {
                    q
                };
                lemma_few(hand, x, y, t);
            }
        }
    }
}

// ---- straights -----------------------------------------------------------

/// The rank at a place of a straight, the Ace being both the lowest and the
/// highest.
pub open spec fn rank_at(place: int) -> int {
    if place == 1 {
        14
    } else {
        place
    }
}

/// A selection holds a straight, without Shortcut, exactly if it is neither too
/// small nor too large and there is a card of each of enough ranks in a row,
/// from the Ace below the 2 to the Ace above the King.
pub proof fn law_straight_is_ranks_in_a_row(hand: Seq<Card>, mods: EvalMods)
    requires
        hand.len() <= usize::MAX,
        !mods.shortcut,
    ensures
        hand_groups(hand, mods, HandType::Straight).len() > 0 <==> enough(mods) <= hand.len() <= 5
            && exists|a: int|
            1 <= a <= 15 - enough(mods) && #[trigger] in_a_row(hand, a, enough(mods)),
{
    assert forall|k: int| 1 <= k <= 14 implies #[trigger] has_rank(hand, k) == (how_many(
        hand,
        of_rank(rank_at(k)),
    ) >= 1) by {
        lemma_members(hand, rank_at(k) as u8);
    }
    let n = mods.need();
    if n <= hand.len() <= 5 {
        law_straight_is_a_run_of_ranks(hand, mods);
        assert forall|a: int| #[trigger] has_run(hand, a, n) implies 1 <= a <= 15 - n && in_a_row(
            hand,
            a,
            n as int,
        ) by {
            assert forall|k: int| a <= k < a + n implies how_many(
                hand,
                #[trigger] of_rank(rank_at(k)),
            ) >= 1 by {
                assert(has_rank(hand, k));
            }
        }
        assert forall|a: int| 1 <= a <= 15 - n && #[trigger] in_a_row(hand, a, n as int) implies has_run(
            hand,
            a,
            n,
        ) by {
            assert forall|k: int| a <= k < a + n implies #[trigger] has_rank(hand, k) by {
                assert(how_many(hand, of_rank(rank_at(k))) >= 1);
            }
        }
    }
}

/// Whether there is a card of each of so many ranks in a row.
pub open spec fn in_a_row(hand: Seq<Card>, a: int, n: int) -> bool {
    forall|k: int| a <= k < a + n ==> how_many(hand, #[trigger] of_rank(rank_at(k))) >= 1
}

// ---- the hand that is played ---------------------------------------------

/// The hand that is played is the strongest that the selection holds.
pub proof fn law_the_strongest_hand_is_played(hand: Seq<Card>, mods: EvalMods)
    requires
        hand.len() > 0,
    ensures
        ({
            let is = |ht: HandType| played_hand(hand, mods) == ht;
            let has = |ht: HandType| hand_groups(hand, mods, ht).len() > 0;
            if has(HandType::FlushFive) {
                is(HandType::FlushFive)
            } else if has(HandType::FlushHouse) {
                is(HandType::FlushHouse)
            } else if has(HandType::FiveOfAKind) {
                is(HandType::FiveOfAKind)
            } else if has(HandType::StraightFlush) {
                is(HandType::StraightFlush)
            } else if has(HandType::FourOfAKind) {
                is(HandType::FourOfAKind)
            } else if has(HandType::FullHouse) {
                is(HandType::FullHouse)
            } else if has(HandType::Flush) {
                is(HandType::Flush)
            } else if has(HandType::Straight) {
                is(HandType::Straight)
            } else if has(HandType::ThreeOfAKind) {
                is(HandType::ThreeOfAKind)
            } else if has(HandType::TwoPair) {
                is(HandType::TwoPair)
            } else if has(HandType::Pair) {
                is(HandType::Pair)
            } else {
                is(HandType::HighCard)
            }
        }),
        hand_groups(hand, mods, HandType::StraightFlush).len() > 0 <==> hand_groups(
            hand,
            mods,
            HandType::Straight,
        ).len() > 0 && hand_groups(hand, mods, HandType::Flush).len() > 0,
        top_hand(hand, mods) == Some(played_hand(hand, mods)),
        played_group(hand, mods) == hand_groups(hand, mods, played_hand(hand, mods))[0],
{
    law_every_selection_is_a_hand(hand, mods);
    law_hands_contain_lower_hands(hand, mods);
}

// ---- straights with gaps -------------------------------------------------

/// Whether so many ranks from a place on are there, each one or two above the one
/// before.
pub open spec fn linked(hand: Seq<Card>, a: int, n: int) -> bool
    decreases n,
{
    &&& 1 <= a <= 14
    &&& how_many(hand, of_rank(rank_at(a))) >= 1
    &&& n <= 1 || linked(hand, a + 1, n - 1) || linked(hand, a + 2, n - 1)
}

proof fn lemma_linked_fewer(hand: Seq<Card>, a: int, n: int, k: int)
    requires
        linked(hand, a, n),
        k <= n,
    ensures
        linked(hand, a, k),
    decreases n,
{
    if k > 1 && n > 1 {
        if linked(hand, a + 1, n - 1) {
            lemma_linked_fewer(hand, a + 1, n - 1, k - 1);
        } else {
            lemma_linked_fewer(hand, a + 2, n - 1, k - 1);
        }
    }
}

proof fn lemma_scan_finds_links(hand: Seq<Card>, mods: EvalMods, j: int, s: StraightScan)
    requires
        hand.len() <= usize::MAX,
        mods.shortcut,
        1 <= j <= 15,
        !s.complete,
        s.length < mods.need(),
    ensures
        ({
            let n = mods.need() as int;
            let r = n - s.length;
            straight_from(hand, mods, j, s).complete <==> (exists|a: int|
                a >= j && #[trigger] linked(hand, a, n)) || (s.length > 0 && (linked(hand, j, r) || (
            !s.skipped && linked(hand, j + 1, r))))
        }),
    decreases 15 - j,
{
    let n = mods.need() as int;
    let r = n - s.length;
    if j <= 14 {
        let m = members(hand, straight_id(j));
        lemma_members(hand, straight_id(j));
        assert(straight_id(j) == rank_at(j));
        if m.len() > 0 {
            let length = s.length + 1;
            let next = StraightScan {
                length,
                complete: s.complete || length >= mods.need(),
                skipped: false,
                cards: s.cards + m,
            };
            if next.complete {
                lemma_stays_complete(hand, mods, j + 1, next);
                assert(r == 1);
                assert(linked(hand, j, 1));
            } else {
                lemma_scan_finds_links(hand, mods, j + 1, next);
                assert(linked(hand, j, r) <==> linked(hand, j + 1, r - 1) || linked(
                    hand,
                    j + 2,
                    r - 1,
                ));
                if linked(hand, j, n) {
                    lemma_linked_fewer(hand, j, n, r);
                }
                if linked(hand, j + 1, r) {
                    lemma_linked_fewer(hand, j + 1, r, r - 1);
                }
                if s.length == 0 && linked(hand, j, r) {
                    assert(linked(hand, j, n));
                }
            }
        } else {
            assert(!linked(hand, j, n) && !linked(hand, j, r));
            if mods.shortcut && !s.skipped && j != 14 {
                let next = StraightScan {
                    complete: s.complete || s.length >= mods.need(),
                    skipped: true,
                    ..s
                };
                lemma_scan_finds_links(hand, mods, j + 1, next);
            } else {
                let next = StraightScan {
                    length: 0,
                    complete: false,
                    skipped: false,
                    cards: seq![],
                };
                lemma_scan_finds_links(hand, mods, j + 1, next);
            }
        }
    }
}

proof fn lemma_stays_complete(hand: Seq<Card>, mods: EvalMods, j: int, s: StraightScan)
    requires
        s.complete,
    ensures
        straight_from(hand, mods, j, s).complete,
    decreases 15 - j,
{
    if 1 <= j <= 14 {
        let m = members(hand, straight_id(j));
        if m.len() > 0 {
            lemma_stays_complete(
                hand,
                mods,
                j + 1,
                StraightScan {
                    length: s.length + 1,
                    complete: s.complete || s.length + 1 >= mods.need(),
                    skipped: false,
                    cards: s.cards + m,
                },
            );
        } else if mods.shortcut && !s.skipped && j != 14 {
            lemma_stays_complete(
                hand,
                mods,
                j + 1,
                StraightScan {
                    complete: s.complete || s.length >= mods.need(),
                    skipped: true,
                    ..s
                },
            );
        }
    }
}

/// With Shortcut a straight may have gaps of one rank: there is one exactly if the
/// selection is neither too small nor too large and enough ranks are linked.
pub proof fn law_shortcut_straights_have_gaps(hand: Seq<Card>, mods: EvalMods)
    requires
        hand.len() <= usize::MAX,
        mods.shortcut,
    ensures
        hand_groups(hand, mods, HandType::Straight).len() > 0 <==> enough(mods) <= hand.len() <= 5
            && exists|a: int| 1 <= a && #[trigger] linked(hand, a, enough(mods)),
{
    let n = mods.need() as int;
    assert(n == enough(mods));
    lemma_scan_finds_links(
        hand,
        mods,
        1,
        StraightScan { length: 0, complete: false, skipped: false, cards: seq![] },
    );
    let first = straight_from(
        hand,
        mods,
        1,
        StraightScan { length: 0, complete: false, skipped: false, cards: seq![] },
    );
    assert(first.complete <==> exists|a: int| a >= 1 && #[trigger] linked(hand, a, n));
    assert(hand_groups(hand, mods, HandType::Straight).len() > 0 <==> n <= hand.len() <= 5
        && first.complete);
}

// ---- which cards score ---------------------------------------------------

/// The cards that make up a hand of a kind, of up to five cards: those of its rank, or
/// of its two ranks.
pub proof fn law_kinds_score_their_ranks(hand: Seq<Card>, mods: EvalMods)
    requires
        0 < hand.len() <= 5,
    ensures
        ({
            let ht = played_hand(hand, mods);
            let g = played_group(hand, mods);
            let of_one = |n: nat|
                exists|r: int|
                    1 <= r <= 14 && how_many(hand, #[trigger] of_rank(r)) == n && names_all(
                        g,
                        hand,
                        of_rank(r),
                    );
            &&& ht == HandType::Pair ==> of_one(2)
            &&& ht == HandType::ThreeOfAKind ==> of_one(3)
            &&& ht == HandType::FourOfAKind ==> of_one(4)
            &&& ht == HandType::FiveOfAKind || ht == HandType::FlushFive ==> of_one(5)
            &&& ht == HandType::HighCard ==> g.len() == 1
        }),
{
    law_the_strongest_hand_is_played(hand, mods);
    law_hands_contain_lower_hands(hand, mods);
    law_groups_share_a_rank(5, hand);
    law_groups_share_a_rank(4, hand);
    law_groups_share_a_rank(3, hand);
    law_groups_share_a_rank(2, hand);
    law_every_selection_is_a_hand(hand, mods);
    let ht = played_hand(hand, mods);
    if ht == HandType::Pair {
        assert(played_group(hand, mods) == same_rank(2, hand)[0]);
    }
    if ht == HandType::ThreeOfAKind {
        assert(played_group(hand, mods) == same_rank(3, hand)[0]);
    }
    if ht == HandType::FourOfAKind {
        assert(played_group(hand, mods) == same_rank(4, hand)[0]);
    }
    if ht == HandType::FiveOfAKind || ht == HandType::FlushFive {
        assert(played_group(hand, mods) == same_rank(5, hand)[0]);
    }
}

proof fn lemma_highest(hand: Seq<Card>, n: nat, i: int)
    requires
        0 <= i < n <= hand.len(),
        forall|k: int|
            0 <= k < hand.len() ==> !crate::double::is_nan(
                (#[trigger] hand[k]).sort_key(false),
            ),
    ensures
        0 <= highest_to(hand, n) < n,
        !hand[highest_to(hand, n)].sort_key(false).below(hand[i].sort_key(false)),
    decreases n,
{
    reveal(Double::below);
    reveal(Double::same_value);
    if n > 1 {
        let h = highest_to(hand, (n - 1) as nat);
        if i < n - 1 {
            lemma_highest(hand, (n - 1) as nat, i);
        } else {
            lemma_highest(hand, (n - 1) as nat, 0);
        }
        assert(!crate::double::is_nan(hand[i].sort_key(false)));
        assert(!crate::double::is_nan(hand[h].sort_key(false)));
        assert(!crate::double::is_nan(hand[n - 1].sort_key(false)));
    }
}

/// A high card is the card that no other card of the selection is above.
pub proof fn law_the_high_card_is_the_highest(hand: Seq<Card>, mods: EvalMods, i: int)
    requires
        0 <= i < hand.len() <= usize::MAX,
        forall|k: int|
            0 <= k < hand.len() ==> !crate::double::is_nan(
                (#[trigger] hand[k]).sort_key(false),
            ),
    ensures
        ({
            let g = hand_groups(hand, mods, HandType::HighCard);
            &&& g.len() == 1 && g[0].len() == 1 && g[0][0] < hand.len()
            &&& !hand[g[0][0] as int].sort_key(false).below(hand[i].sort_key(false))
        }),
{
    lemma_highest(hand, hand.len(), i);
}

} // verus!
