//! The starting deck of a run, and shuffling.
//!
//! Cards are numbered in the order in which they are made, from 1. A deck is
//! drawn from its end.
use crate::cards;
use crate::cards::{Card, Rank, Suit};
use crate::config;
use crate::config::{front_at, Deck};
use crate::double::Double;
use crate::order;
use crate::order::stable_sort;
use crate::rng::{place_of, LuaRandom, RngState, Streams};
use crate::rng;
use vstd::prelude::*;

verus! {

/// The place of a suit in key order: C, D, H, S.
pub open spec fn suit_key(s: Suit) -> int {
    match s {
        Suit::Clubs => 0,
        Suit::Diamonds => 1,
        Suit::Hearts => 2,
        Suit::Spades => 3,
    }
}

/// The place of a rank in key order; behind all for what is no rank.
pub open spec fn rank_key(r: Rank) -> int {
    if 2 <= r.0 <= 9 {
        r.0 - 2
    } else if r.0 == 14 {
        8
    } else if r.0 == 11 {
        9
    } else if r.0 == 13 {
        10
    } else if r.0 == 12 {
        11
    } else if r.0 == 10 {
        12
    } else {
        255
    }
}

/// Key order on suits and ranks.
pub open spec fn key_leq() -> spec_fn((Suit, Rank), (Suit, Rank)) -> bool {
    |a: (Suit, Rank), b: (Suit, Rank)|
        suit_key(a.0) < suit_key(b.0) || (suit_key(a.0) == suit_key(b.0) && rank_key(a.1)
            <= rank_key(b.1))
}

pub fn suit_sort_key(s: Suit) -> (r: u8)
    ensures
        r == suit_key(s),
{
    match s {
        Suit::Clubs => 0,
        Suit::Diamonds => 1,
        Suit::Hearts => 2,
        Suit::Spades => 3,
    }
}

pub fn rank_sort_key(r: Rank) -> (k: u8)
    ensures
        k == rank_key(r),
{
    if 2 <= r.0 && r.0 <= 9 {
        r.0 - 2
    } else if r.0 == 14 {
        8
    } else if r.0 == 11 {
        9
    } else if r.0 == 13 {
        10
    } else if r.0 == 12 {
        11
    } else if r.0 == 10 {
        12
    } else {
        255
    }
}

/// `n` cards drawn at random from the 52.
pub open spec fn random_fronts(s: Streams, n: nat) -> Seq<(Suit, Rank)> {
    Seq::new(
        n,
        |i: int| config::front(s.after_draws("erratic"@, i as nat).place("erratic"@, 52)),
    )
}

/// The suits and ranks that a deck starts with, in key order.
pub open spec fn starting_fronts(deck: Deck, s: Streams) -> Seq<(Suit, Rank)> {
    let all = Seq::new(52, |i: int| config::front(i));
    if deck == Deck::Erratic {
        order::sorted(random_fronts(s, 52), key_leq())
    } else if deck == Deck::Abandoned {
        all.filter(|p: (Suit, Rank)| !p.1.face())
    } else {
        all
    }
}

/// The suit that a deck prints a card in.
pub open spec fn printed_suit(deck: Deck, s: Suit) -> Suit {
    if deck == Deck::Checkered {
        match s {
            Suit::Clubs => Suit::Spades,
            Suit::Diamonds => Suit::Hearts,
            other => other,
        }
    } else {
        s
    }
}

/// The cards of a deck in creation order.
pub open spec fn starting_deck(deck: Deck, s: Streams) -> Seq<Card> {
    let fronts = starting_fronts(deck, s);
    Seq::new(
        fronts.len(),
        |i: int|
            cards::plain_card(fronts[i].1, printed_suit(deck, fronts[i].0), (i + 1) as u32),
    )
}

/// The 52 cards of the Red Deck.
pub fn red_deck() -> (r: Vec<Card>)
    ensures
        r@ == starting_deck(Deck::Red, Streams::start(""@)),
{
    let mut rng = RngState::new("");
    build_deck(Deck::Red, &mut rng)
}

fn draw_fronts(rng: &mut RngState) -> (r: Vec<(Suit, Rank)>)
    ensures
        r@ == random_fronts(old(rng)@, 52),
        final(rng)@ == old(rng)@.after_draws("erratic"@, 52),
{
    let ghost start = rng@;
    let mut v: Vec<(Suit, Rank)> = Vec::new();
    let mut i: usize = 0;
    while i < 52
        invariant
            i <= 52,
            rng@ == start.after_draws("erratic"@, i as nat),
            v@ == random_fronts(start, i as nat),
        decreases 52 - i,
    {
        let k: usize = rng.random_place("erratic", 52);
        v.push(front_at(k));
        i = i + 1;
        assert(v@ =~= random_fronts(start, i as nat));
    }
    v
}

/// The starting deck. Only the Erratic Deck draws, and only from its own key.
pub fn build_deck(deck: Deck, rng: &mut RngState) -> (r: Vec<Card>)
    ensures
        r@ == starting_deck(deck, old(rng)@),
        final(rng)@ == if deck == Deck::Erratic {
            old(rng)@.after_draws("erratic"@, 52)
        } else {
            old(rng)@
        },
{
    let mut protos: Vec<(Suit, Rank)> = Vec::new();
    if deck == Deck::Erratic {
        let drawn = draw_fronts(rng);
        let le = |a: &(Suit, Rank), b: &(Suit, Rank)| -> (c: bool)
            ensures
                c == key_leq()(*a, *b),
            {
                let x: u8 = suit_sort_key(a.0);
                let y: u8 = suit_sort_key(b.0);
                x < y || (x == y && rank_sort_key(a.1) <= rank_sort_key(b.1))
            };
        protos = stable_sort(&drawn, le, Ghost(key_leq()));
    } else {
        let ghost all = Seq::new(52, |i: int| config::front(i));
        let ghost keep = |p: (Suit, Rank)| !p.1.face();
        let mut i: usize = 0;
        proof {
            reveal(Seq::filter);
        }
        assert(all.take(0) =~= Seq::empty());
        while i < 52
            invariant
                i <= 52,
                all == Seq::new(52, |i: int| config::front(i)),
                keep == (|p: (Suit, Rank)| !p.1.face()),
                protos@ == if deck == Deck::Abandoned {
                    all.take(i as int).filter(keep)
                } else {
                    all.take(i as int)
                },
            decreases 52 - i,
        {
            let p = front_at(i);
            proof {
                reveal(Seq::filter);
                assert(all.take(i + 1).drop_last() =~= all.take(i as int));
                assert(all.take(i + 1).last() == p);
                assert(all.take(i + 1) =~= all.take(i as int).push(p));
            }
            if deck != Deck::Abandoned || !p.1.is_face() {
                protos.push(p);
            }
            i = i + 1;
        }
        assert(all.take(52) =~= all);
    }
    assert(protos@ == starting_fronts(deck, old(rng)@));
    assert(protos@.len() <= 52) by {
        if deck == Deck::Erratic {
            order::lemma_sorted_permutes(random_fronts(old(rng)@, 52), key_leq());
        } else if deck == Deck::Abandoned {
            let all = Seq::new(52, |i: int| config::front(i));
            all.lemma_filter_len(|p: (Suit, Rank)| !p.1.face());
        }
    }
    let mut cards: Vec<Card> = Vec::new();
    let mut i: usize = 0;
    while i < protos.len()
        invariant
            i <= protos.len() <= 52,
            cards@.len() == i,
            forall|j: int|
                0 <= j < i ==> #[trigger] cards@[j] == cards::plain_card(
                    protos@[j].1,
                    printed_suit(deck, protos@[j].0),
                    (j + 1) as u32,
                ),
        decreases protos.len() - i,
    {
        let p = protos[i];
        let suit = if deck == Deck::Checkered {
            match p.0 {
                Suit::Clubs => Suit::Spades,
                Suit::Diamonds => Suit::Hearts,
                other => other,
            }
        } else {
            p.0
        };
        cards.push(Card::new(p.1, suit, i as u32 + 1));
        i = i + 1;
    }
    assert(cards@ =~= starting_deck(deck, old(rng)@));
    cards
}

/// Ascending creation order.
pub open spec fn id_leq() -> spec_fn(Card, Card) -> bool {
    |a: Card, b: Card| a.sort_id <= b.sort_id
}

/// Two elements of a sequence exchanged.
pub open spec fn swapped<T>(s: Seq<T>, i: int, j: int) -> Seq<T> {
    s.update(i, s[j]).update(j, s[i])
}

/// From place `i` down to place 1, exchange each with a drawn place at or
/// below it.
pub open spec fn exchanged<T>(s: Seq<T>, g: LuaRandom, i: nat) -> Seq<T>
    decreases i,
{
    if i == 0 {
        s
    } else {
        let j = rng::drawn_place(g.range(1, (i + 1) as i64), i + 1);
        exchanged(swapped(s, i as int, j), g.stepped(), (i - 1) as nat)
    }
}

/// One exchange per place, with the generator of a seed.
pub open spec fn stirred<T>(t: Seq<T>, seed: Double) -> Seq<T> {
    if t.len() == 0 {
        t
    } else {
        exchanged(t, LuaRandom::from_seed(seed), (t.len() - 1) as nat)
    }
}

/// The shuffle: creation order first, then one exchange per place.
#[verifier::opaque]
pub open spec fn shuffled(s: Seq<Card>, seed: Double) -> Seq<Card> {
    stirred(order::sorted(s, id_leq()), seed)
}

/// Exchange each place of a list with a drawn one at or below it.
pub(crate) fn stir<T: Copy>(v: &mut Vec<T>, seed: Double)
    ensures
        final(v)@ == stirred(old(v)@, seed),
{
    if v.len() > 0 {
        let mut rng = LuaRandom::seeded(seed);
        let ghost goal = exchanged(v@, rng, (v@.len() - 1) as nat);
        let mut i: usize = v.len() - 1;
        while i > 0
            invariant
                i < v.len(),
                exchanged(v@, rng, i as nat) == goal,
            decreases i,
        {
            let draw: i64 = rng.random_range(1, (i as u64 + 1) as i64);
            let j: usize = place_of(draw, i + 1);
            let x = v[i];
            let y = v[j];
            v.set(i, y);
            v.set(j, x);
            i = i - 1;
        }
    }
}

/// Shuffle a list of cards with the seed of a draw.
pub fn pseudoshuffle(list: &mut Vec<Card>, seed: Double)
    ensures
        final(list)@ == shuffled(old(list)@, seed),
{
    proof {
        reveal(shuffled);
    }
    let le = |a: &Card, b: &Card| -> (c: bool)
        ensures
            c == id_leq()(*a, *b),
        { a.sort_id <= b.sort_id };
    let mut v = stable_sort(list, le, Ghost(id_leq()));
    stir(&mut v, seed);
    *list = v;
}

// ---- laws ----------------------------------------------------------------

/// Every deck but the Abandoned, the Checkered and the Erratic one starts with
/// the cards of the Red Deck, whatever the seed.
pub proof fn law_only_three_decks_change_the_cards(deck: Deck, s: Streams, t: Streams)
    requires
        deck != Deck::Abandoned,
        deck != Deck::Checkered,
        deck != Deck::Erratic,
    ensures
        starting_deck(deck, s) == starting_deck(Deck::Red, t),
        starting_deck(deck, s).len() == 52,
{
    assert(starting_deck(deck, s) =~= starting_deck(Deck::Red, t));
}

/// The cards of every starting deck are numbered from 1 without a gap.
pub proof fn law_starting_cards_are_numbered(deck: Deck, s: Streams, i: int)
    requires
        0 <= i < starting_deck(deck, s).len(),
    ensures
        starting_deck(deck, s)[i].sort_id == i + 1,
        starting_deck(deck, s).len() <= 52,
{
    if deck == Deck::Erratic {
        order::lemma_sorted_permutes(random_fronts(s, 52), key_leq());
    } else if deck == Deck::Abandoned {
        let all = Seq::new(52, |i: int| config::front(i));
        all.lemma_filter_len(|p: (Suit, Rank)| !p.1.face());
    }
}

/// The Checkered Deck recolours the Red Deck and changes nothing else; no Club
/// and no Diamond is left.
pub proof fn law_checkered_recolours(s: Streams, i: int)
    requires
        0 <= i < 52,
    ensures
        starting_deck(Deck::Checkered, s).len() == 52,
        ({
            let c = starting_deck(Deck::Checkered, s)[i];
            let r = starting_deck(Deck::Red, s)[i];
            c == (Card { suit: c.suit, ..r }) && c.suit == if cards::is_red(r.suit) {
                Suit::Hearts
            } else {
                Suit::Spades
            }
        }),
{
}

proof fn lemma_key_order()
    ensures
        order::is_order(key_leq()),
{
}

/// Every deck starts in key order, before the Checkered Deck recolours it.
pub proof fn law_starting_cards_are_in_key_order(deck: Deck, s: Streams)
    ensures
        order::ascending(starting_fronts(deck, s), key_leq()),
{
    lemma_key_order();
    let all = Seq::new(52, |i: int| config::front(i));
    assert(order::ascending(all, key_leq())) by {
        assert forall|i: int, j: int| 0 <= i < j < all.len() implies key_leq()(
            #[trigger] all[i],
            #[trigger] all[j],
        ) by {}
    }
    if deck == Deck::Erratic {
        order::lemma_sorted_ascending(random_fronts(s, 52), key_leq());
    } else if deck == Deck::Abandoned {
        lemma_filter_ascending(all, |p: (Suit, Rank)| !p.1.face(), key_leq());
    }
}

/// The ranks of a starting deck are those from 2 to the Ace.
pub proof fn law_starting_ranks(deck: Deck, s: Streams, i: int)
    requires
        0 <= i < starting_deck(deck, s).len(),
    ensures
        2 <= starting_deck(deck, s)[i].rank.0 <= 14,
{
    let fronts = starting_fronts(deck, s);
    if deck == Deck::Erratic {
        let drawn = random_fronts(s, 52);
        order::lemma_sorted_permutes(drawn, key_leq());
        lemma_permuted_member(fronts, drawn, i);
    } else if deck == Deck::Abandoned {
        let all = Seq::new(52, |i: int| config::front(i));
        lemma_filter_member(all, |p: (Suit, Rank)| !p.1.face(), i);
    }
}

/// What stands in a list stands in every other order of it.
proof fn lemma_permuted_member<T>(s: Seq<T>, t: Seq<T>, i: int)
    requires
        s.to_multiset() == t.to_multiset(),
        0 <= i < s.len(),
    ensures
        t.contains(s[i]),
{
    broadcast use vstd::seq_lib::group_to_multiset_ensures;

    assert(s.contains(s[i]));
    assert(s.to_multiset().count(s[i]) > 0);
}

/// An Erratic Deck has 52 cards, numbered in key order. It is fixed by the
/// streams, and is no Red Deck where a card is drawn twice.
pub proof fn law_erratic_decks(s: Streams, i: int, j: int)
    requires
        0 <= i < j < 52,
    ensures
        starting_deck(Deck::Erratic, s).len() == 52,
        starting_deck(Deck::Erratic, s)[i].sort_id == i + 1,
        key_leq()(starting_fronts(Deck::Erratic, s)[i], starting_fronts(Deck::Erratic, s)[j]),
        random_fronts(s, 52)[i] == random_fronts(s, 52)[j] ==> starting_deck(Deck::Erratic, s)
            != starting_deck(Deck::Red, s),
{
    broadcast use vstd::seq_lib::group_to_multiset_ensures;

    let drawn = random_fronts(s, 52);
    let fronts = starting_fronts(Deck::Erratic, s);
    let all = starting_fronts(Deck::Red, s);
    order::lemma_sorted_permutes(drawn, key_leq());
    law_starting_cards_are_in_key_order(Deck::Erratic, s);
    if drawn[i] == drawn[j] && starting_deck(Deck::Erratic, s) == starting_deck(Deck::Red, s) {
        lemma_deck_shows_fronts(Deck::Erratic, Deck::Red, s, s);
        assert(all.no_duplicates()) by {
            assert forall|x: int, y: int| 0 <= x < y < 52 implies all[x] != all[y] by {
                if all[x] == all[y] {
                    assert(x / 13 == y / 13 && x % 13 == y % 13);
                }
            }
        }
        all.lemma_multiset_has_no_duplicates();
        drawn.lemma_multiset_has_no_duplicates_conv();
    }
}

/// Lists in order with the same members are the same list.
proof fn lemma_one_order<T>(s: Seq<T>, t: Seq<T>, leq: spec_fn(T, T) -> bool)
    requires
        order::ascending(s, leq),
        order::ascending(t, leq),
        s.to_multiset() == t.to_multiset(),
        forall|i: int, j: int|
            0 <= i < s.len() && 0 <= j < s.len() && leq(#[trigger] s[i], #[trigger] s[j]) && leq(
                s[j],
                s[i],
            ) ==> s[i] == s[j],
    ensures
        s == t,
    decreases s.len(),
{
    broadcast use vstd::seq_lib::group_to_multiset_ensures;

    s.to_multiset_ensures();
    t.to_multiset_ensures();
    assert(s.len() == t.len());
    if s.len() == 0 {
        assert(s =~= t);
    } else {
        let n = s.len() - 1;
        lemma_permuted_member(t, s, n);
        lemma_permuted_member(s, t, n);
        let i = choose|i: int| 0 <= i < s.len() && s[i] == t[n];
        let j = choose|j: int| 0 <= j < t.len() && t[j] == s[n];
        assert(s[n] == t[n]) by {
            if i < n && j < n {
                assert(leq(s[i], s[n]));
                assert(leq(t[j], t[n]));
            }
        }
        assert(s =~= s.drop_last().push(s[n]));
        assert(t =~= t.drop_last().push(t[n]));
        assert(s.drop_last().to_multiset() =~= s.to_multiset().remove(s[n]));
        assert(t.drop_last().to_multiset() =~= t.to_multiset().remove(t[n]));
        assert forall|x: int, y: int|
            0 <= x < n && 0 <= y < n && leq(
                #[trigger] s.drop_last()[x],
                #[trigger] s.drop_last()[y],
            ) && leq(s.drop_last()[y], s.drop_last()[x]) implies s.drop_last()[x]
            == s.drop_last()[y] by {
            assert(s[x] == s.drop_last()[x] && s[y] == s.drop_last()[y]);
        }
        assert(order::ascending(s.drop_last(), leq));
        assert(order::ascending(t.drop_last(), leq));
        lemma_one_order(s.drop_last(), t.drop_last(), leq);
    }
}

/// No two fronts of an Erratic Deck have the same key.
proof fn lemma_drawn_fronts(s: Streams, f: Seq<(Suit, Rank)>)
    requires
        f == starting_fronts(Deck::Erratic, s),
    ensures
        forall|i: int, j: int|
            0 <= i < f.len() && 0 <= j < f.len() && key_leq()(#[trigger] f[i], #[trigger] f[j])
                && key_leq()(f[j], f[i]) ==> f[i] == f[j],
{
    let drawn = random_fronts(s, 52);
    order::lemma_sorted_permutes(drawn, key_leq());
    assert forall|i: int, j: int|
        0 <= i < f.len() && 0 <= j < f.len() && key_leq()(#[trigger] f[i], #[trigger] f[j])
            && key_leq()(f[j], f[i]) implies f[i] == f[j] by {
        lemma_permuted_member(f, drawn, i);
        lemma_permuted_member(f, drawn, j);
    }
}

proof fn lemma_deck_shows_fronts(a: Deck, b: Deck, s: Streams, t: Streams)
    requires
        a != Deck::Checkered,
        b != Deck::Checkered,
        starting_deck(a, s) == starting_deck(b, t),
    ensures
        starting_fronts(a, s) == starting_fronts(b, t),
{
    let f = starting_fronts(a, s);
    let g = starting_fronts(b, t);
    let x = starting_deck(a, s);
    let y = starting_deck(b, t);
    assert(x.len() == f.len() && y.len() == g.len());
    assert(f =~= g) by {
        assert forall|k: int| 0 <= k < f.len() implies f[k] == g[k] by {
            assert(x[k] == y[k]);
            assert(x[k].rank == f[k].1 && x[k].suit == printed_suit(a, f[k].0));
            assert(y[k].rank == g[k].1 && y[k].suit == printed_suit(b, g[k].0));
        }
    }
}

/// Erratic Decks differ where their draws do, whatever the order of the draws;
/// and one is a Red Deck only where it draws the front of every card once.
pub proof fn law_erratic_decks_follow_their_draws(s: Streams, t: Streams)
    ensures
        starting_deck(Deck::Erratic, s) == starting_deck(Deck::Erratic, t) <==> random_fronts(
            s,
            52,
        ).to_multiset() == random_fronts(t, 52).to_multiset(),
        starting_deck(Deck::Erratic, s) == starting_deck(Deck::Red, s) <==> random_fronts(
            s,
            52,
        ).to_multiset() == starting_fronts(Deck::Red, s).to_multiset(),
{
    order::lemma_sorted_permutes(random_fronts(s, 52), key_leq());
    order::lemma_sorted_permutes(random_fronts(t, 52), key_leq());
    law_starting_cards_are_in_key_order(Deck::Erratic, s);
    law_starting_cards_are_in_key_order(Deck::Erratic, t);
    law_starting_cards_are_in_key_order(Deck::Red, s);
    let f = starting_fronts(Deck::Erratic, s);
    lemma_drawn_fronts(s, f);
    let g = starting_fronts(Deck::Erratic, t);
    let r = starting_fronts(Deck::Red, s);
    if f.to_multiset() == g.to_multiset() {
        lemma_one_order(f, g, key_leq());
        assert(starting_deck(Deck::Erratic, s) =~= starting_deck(Deck::Erratic, t));
    }
    if starting_deck(Deck::Erratic, s) == starting_deck(Deck::Erratic, t) {
        lemma_deck_shows_fronts(Deck::Erratic, Deck::Erratic, s, t);
    }
    if f.to_multiset() == r.to_multiset() {
        lemma_one_order(f, r, key_leq());
        assert(starting_deck(Deck::Erratic, s) =~= starting_deck(Deck::Red, s));
    }
    if starting_deck(Deck::Erratic, s) == starting_deck(Deck::Red, s) {
        lemma_deck_shows_fronts(Deck::Erratic, Deck::Red, s, s);
    }
}

proof fn lemma_filter_member<T>(s: Seq<T>, keep: spec_fn(T) -> bool, i: int)
    requires
        0 <= i < s.filter(keep).len(),
    ensures
        s.contains(s.filter(keep)[i]),
    decreases s.len(),
{
    reveal(Seq::filter);
    if s.len() > 0 {
        let t = s.drop_last();
        if i < t.filter(keep).len() {
            lemma_filter_member(t, keep, i);
            let k = choose|k: int| 0 <= k < t.len() && t[k] == t.filter(keep)[i];
            assert(s[k] == s.filter(keep)[i]);
        } else {
            assert(s[s.len() - 1] == s.filter(keep)[i]);
        }
    }
}

proof fn lemma_filter_ascending<T>(
    s: Seq<T>,
    keep: spec_fn(T) -> bool,
    leq: spec_fn(T, T) -> bool,
)
    requires
        order::ascending(s, leq),
    ensures
        order::ascending(s.filter(keep), leq),
    decreases s.len(),
{
    reveal(Seq::filter);
    if s.len() > 0 {
        let t = s.drop_last();
        assert(order::ascending(t, leq)) by {
            assert forall|i: int, j: int| 0 <= i < j < t.len() implies leq(
                #[trigger] t[i],
                #[trigger] t[j],
            ) by {
                assert(leq(s[i], s[j]));
            }
        }
        lemma_filter_ascending(t, keep, leq);
        let f = t.filter(keep);
        assert forall|i: int, j: int| 0 <= i < j < s.filter(keep).len() implies leq(
            #[trigger] s.filter(keep)[i],
            #[trigger] s.filter(keep)[j],
        ) by {
            if j < f.len() {
                assert(leq(f[i], f[j]));
            } else {
                lemma_filter_member(t, keep, i);
                let k = choose|k: int| 0 <= k < t.len() && t[k] == f[i];
                assert(leq(s[k], s[s.len() - 1]));
            }
        }
    }
}

/// No Jack, Queen or King is in the Abandoned Deck, and it has every other
/// card of the 52.
pub proof fn law_abandoned_drops_the_faces(s: Streams, i: int, j: int)
    requires
        0 <= i < starting_fronts(Deck::Abandoned, s).len(),
        0 <= j < 52,
        !config::front(j).1.face(),
    ensures
        !starting_deck(Deck::Abandoned, s)[i].rank.face(),
        starting_fronts(Deck::Abandoned, s).contains(config::front(j)),
        starting_deck(Deck::Abandoned, s).len() == 40,
{
    let all = Seq::new(52, |i: int| config::front(i));
    let keep = |p: (Suit, Rank)| !p.1.face();
    all.lemma_filter_pred(keep, i);
    all.lemma_filter_contains(keep, j);
    lemma_abandoned_count(52);
    assert(all.take(52) =~= all);
}

/// How many of the first `n` cards in key order are no faces.
proof fn lemma_abandoned_count(n: nat)
    requires
        n <= 52,
    ensures
        Seq::new(52, |i: int| config::front(i)).take(n as int).filter(
            |p: (Suit, Rank)| !p.1.face(),
        ).len() == 10 * (n / 13) + (if n % 13 <= 9 {
            (n % 13) as int
        } else if n % 13 <= 12 {
            9
        } else {
            10
        }),
    decreases n,
{
    reveal(Seq::filter);
    let all = Seq::new(52, |i: int| config::front(i));
    if n > 0 {
        let m = (n - 1) as nat;
        lemma_abandoned_count(m);
        assert(all.take(n as int).drop_last() =~= all.take(m as int));
        assert(all.take(n as int).last() == config::front(m as int));
    }
}

proof fn lemma_swapped_multiset<T>(s: Seq<T>, i: int, j: int)
    requires
        0 <= i < s.len(),
        0 <= j < s.len(),
    ensures
        swapped(s, i, j).to_multiset() == s.to_multiset(),
{
    broadcast use vstd::seq_lib::group_to_multiset_ensures;

    assert(swapped(s, i, j).to_multiset() =~= s.to_multiset());
}

pub proof fn lemma_exchanged_multiset<T>(s: Seq<T>, g: LuaRandom, i: nat)
    requires
        i < s.len(),
    ensures
        exchanged(s, g, i).to_multiset() == s.to_multiset(),
        exchanged(s, g, i).len() == s.len(),
    decreases i,
{
    if i > 0 {
        let j = rng::drawn_place(g.range(1, (i + 1) as i64), i + 1);
        lemma_swapped_multiset(s, i as int, j);
        lemma_exchanged_multiset(swapped(s, i as int, j), g.stepped(), (i - 1) as nat);
    }
}

/// A shuffle keeps the cards.
pub proof fn law_shuffle_permutes(s: Seq<Card>, seed: Double)
    ensures
        shuffled(s, seed).to_multiset() == s.to_multiset(),
        shuffled(s, seed).len() == s.len(),
{
    reveal(shuffled);
    order::lemma_sorted_permutes(s, id_leq());
    let t = order::sorted(s, id_leq());
    if t.len() > 0 {
        lemma_exchanged_multiset(t, LuaRandom::from_seed(seed), (t.len() - 1) as nat);
    }
}

/// No two cards carry the same number.
pub open spec fn distinct_ids(s: Seq<Card>) -> bool {
    forall|i: int, j: int|
        0 <= i < j < s.len() ==> #[trigger] s[i].sort_id != #[trigger] s[j].sort_id
}

proof fn lemma_same_sorted(s: Seq<Card>, t: Seq<Card>)
    requires
        s.to_multiset() == t.to_multiset(),
        order::ascending(s, id_leq()),
        order::ascending(t, id_leq()),
        distinct_ids(s),
    ensures
        s == t,
    decreases s.len(),
{
    broadcast use vstd::seq_lib::group_to_multiset_ensures;

    assert(s.to_multiset().len() == s.len() && t.to_multiset().len() == t.len());
    if s.len() == 0 {
        assert(s =~= t);
    } else {
        let x = s.last();
        let y = t.last();
        assert(s.contains(x) && t.contains(y));
        assert(t.to_multiset().contains(x));
        assert(s.to_multiset().contains(y));
        assert(t.contains(x) && s.contains(y));
        let a = choose|a: int| 0 <= a < t.len() && t[a] == x;
        let b = choose|b: int| 0 <= b < s.len() && s[b] == y;
        assert(x.sort_id <= y.sort_id) by {
            if a < t.len() - 1 {
                assert(id_leq()(t[a], t[t.len() - 1]));
            }
        }
        assert(y.sort_id <= x.sort_id) by {
            if b < s.len() - 1 {
                assert(id_leq()(s[b], s[s.len() - 1]));
            }
        }
        assert(b == s.len() - 1);
        assert(x == y);
        let s1 = s.drop_last();
        let t1 = t.drop_last();
        assert(s =~= s1.push(x));
        assert(t =~= t1.push(x));
        assert(s1.to_multiset() =~= s.to_multiset().remove(x));
        assert(t1.to_multiset() =~= t.to_multiset().remove(x));
        assert(order::ascending(s1, id_leq())) by {
            assert forall|i: int, j: int| 0 <= i < j < s1.len() implies id_leq()(
                #[trigger] s1[i],
                #[trigger] s1[j],
            ) by {
                assert(id_leq()(s[i], s[j]));
            }
        }
        assert(order::ascending(t1, id_leq())) by {
            assert forall|i: int, j: int| 0 <= i < j < t1.len() implies id_leq()(
                #[trigger] t1[i],
                #[trigger] t1[j],
            ) by {
                assert(id_leq()(t[i], t[j]));
            }
        }
        assert(distinct_ids(s1)) by {
            assert forall|i: int, j: int| 0 <= i < j < s1.len() implies #[trigger] s1[i].sort_id
                != #[trigger] s1[j].sort_id by {
                assert(s[i].sort_id != s[j].sort_id);
            }
        }
        lemma_same_sorted(s1, t1);
    }
}

proof fn lemma_distinct_permuted(s: Seq<Card>, t: Seq<Card>)
    requires
        s.to_multiset() == t.to_multiset(),
        distinct_ids(s),
    ensures
        distinct_ids(t),
    decreases s.len(),
{
    broadcast use vstd::seq_lib::group_to_multiset_ensures;

    assert forall|i: int, j: int| 0 <= i < j < t.len() implies #[trigger] t[i].sort_id
        != #[trigger] t[j].sort_id by {
        if t[i].sort_id == t[j].sort_id {
            assert(t.contains(t[i]) && t.contains(t[j]));
            assert(s.to_multiset().contains(t[i]) && s.to_multiset().contains(t[j]));
            assert(s.contains(t[i]) && s.contains(t[j]));
            let a = choose|a: int| 0 <= a < s.len() && s[a] == t[i];
            let b = choose|b: int| 0 <= b < s.len() && s[b] == t[j];
            if a != b {
                if a < b {
                    assert(s[a].sort_id != s[b].sort_id);
                } else {
                    assert(s[b].sort_id != s[a].sort_id);
                }
            }
            assert(t[i] == t[j]);
            // The card would stand twice in `t` and once in `s`.
            lemma_twice(t, i, j);
            lemma_once(s, a);
        }
    }
}

proof fn lemma_twice(t: Seq<Card>, i: int, j: int)
    requires
        0 <= i < j < t.len(),
        t[i] == t[j],
    ensures
        t.to_multiset().count(t[i]) >= 2,
{
    broadcast use vstd::seq_lib::group_to_multiset_ensures;

    let u = t.remove(j);
    assert(u[i] == t[i]);
    assert(u.contains(t[i]));
    assert(u.to_multiset() =~= t.to_multiset().remove(t[j]));
    assert(u.to_multiset().count(t[i]) > 0);
}

proof fn lemma_once(s: Seq<Card>, a: int)
    requires
        0 <= a < s.len(),
        distinct_ids(s),
    ensures
        s.to_multiset().count(s[a]) == 1,
{
    broadcast use vstd::seq_lib::group_to_multiset_ensures;

    let u = s.remove(a);
    assert(u.to_multiset() =~= s.to_multiset().remove(s[a]));
    if u.contains(s[a]) {
        let k = choose|k: int| 0 <= k < u.len() && u[k] == s[a];
        if k < a {
            assert(s[k].sort_id != s[a].sort_id);
        } else {
            assert(s[a].sort_id != s[k + 1].sort_id);
        }
    }
    assert(s.contains(s[a]));
    assert(u.to_multiset().count(s[a]) == 0);
}

/// A shuffle does not depend on the order that the cards had before.
pub proof fn law_shuffle_ignores_the_order_before(s: Seq<Card>, t: Seq<Card>, seed: Double)
    requires
        s.to_multiset() == t.to_multiset(),
        distinct_ids(s),
    ensures
        shuffled(s, seed) == shuffled(t, seed),
{
    reveal(shuffled);
    assert(order::is_order(id_leq()));
    order::lemma_sorted_permutes(s, id_leq());
    order::lemma_sorted_permutes(t, id_leq());
    order::lemma_sorted_ascending(s, id_leq());
    order::lemma_sorted_ascending(t, id_leq());
    lemma_distinct_permuted(s, order::sorted(s, id_leq()));
    lemma_same_sorted(order::sorted(s, id_leq()), order::sorted(t, id_leq()));
}

} // verus!
