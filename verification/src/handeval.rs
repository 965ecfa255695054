//! Which poker hands a selection of cards holds, and which cards score.
//!
//! Cards are named by their place in the selection.
use crate::cards::{Card, HandType, Suit};
use vstd::prelude::*;

verus! {

/// What jokers change about the evaluation.
#[derive(Debug, Clone, Copy, PartialEq, Eq, Default, Structural)]
pub struct EvalMods {
    /// Flushes and straights take only four cards.
    pub four_fingers: bool,
    /// Straights may leave out single ranks.
    pub shortcut: bool,
    /// Suits of one colour count as one.
    pub smeared: bool,
}

impl EvalMods {
    /// The number of cards that a flush or a straight takes.
    pub open spec fn need(self) -> nat {
        if self.four_fingers {
            4
        } else {
            5
        }
    }
}

/// Places of the cards of rank number `id` among the first `n`, ascending.
pub open spec fn members_to(hand: Seq<Card>, id: u8, n: nat) -> Seq<usize>
    decreases n,
{
    if n == 0 {
        seq![]
    } else {
        let before = members_to(hand, id, (n - 1) as nat);
        if hand[n - 1].eval_id() == Some(id) {
            before.push((n - 1) as usize)
        } else {
            before
        }
    }
}

/// Places of the cards of rank number `id`, ascending. Stone cards have none.
pub open spec fn members(hand: Seq<Card>, id: u8) -> Seq<usize> {
    members_to(hand, id, hand.len())
}

/// Of the rank numbers `id` down to 1, the groups of exactly `num` cards.
pub open spec fn groups_from(num: nat, hand: Seq<Card>, id: u8) -> Seq<Seq<usize>>
    decreases id,
{
    if id == 0 {
        seq![]
    } else {
        let m = members(hand, id);
        let rest = groups_from(num, hand, (id - 1) as u8);
        if num > 0 && m.len() == num {
            seq![m] + rest
        } else {
            rest
        }
    }
}

/// The groups of exactly `num` cards of one rank, highest rank first.
pub open spec fn same_rank(num: nat, hand: Seq<Card>) -> Seq<Seq<usize>> {
    groups_from(num, hand, 14)
}

/// Places of the cards that match a suit among the first `n`, ascending.
pub open spec fn suited_to(hand: Seq<Card>, suit: Suit, smeared: bool, n: nat) -> Seq<usize>
    decreases n,
{
    if n == 0 {
        seq![]
    } else {
        let before = suited_to(hand, suit, smeared, (n - 1) as nat);
        if hand[n - 1].suits_flush(suit, smeared) {
            before.push((n - 1) as usize)
        } else {
            before
        }
    }
}

/// Places of the cards that match a suit.
pub open spec fn suited(hand: Seq<Card>, suit: Suit, smeared: bool) -> Seq<usize> {
    suited_to(hand, suit, smeared, hand.len())
}

/// The flush in a selection: of Spades, Hearts, Clubs, Diamonds the first suit
/// that enough cards match. At most five cards are looked at.
pub open spec fn flush_groups(hand: Seq<Card>, mods: EvalMods) -> Seq<Seq<usize>> {
    let of = |s: Suit| suited(hand, s, mods.smeared);
    if hand.len() > 5 || hand.len() < mods.need() {
        seq![]
    } else if of(Suit::Spades).len() >= mods.need() {
        seq![of(Suit::Spades)]
    } else if of(Suit::Hearts).len() >= mods.need() {
        seq![of(Suit::Hearts)]
    } else if of(Suit::Clubs).len() >= mods.need() {
        seq![of(Suit::Clubs)]
    } else if of(Suit::Diamonds).len() >= mods.need() {
        seq![of(Suit::Diamonds)]
    } else {
        seq![]
    }
}

/// The ranks in the order in which a straight is looked for: the Ace as 1,
/// then 2 to 14.
pub open spec fn straight_id(j: int) -> u8 {
    if j == 1 {
        14
    } else {
        j as u8
    }
}

/// How far the search for a straight has come: ranks in a row, whether the
/// last rank was left out, and the cards collected.
#[verifier::ext_equal]
pub struct StraightScan {
    pub length: nat,
    pub complete: bool,
    pub skipped: bool,
    pub cards: Seq<usize>,
}

/// Look on from rank `j`: a rank that is there lengthens the run; one that is
/// missing may be left out once in a row with Shortcut, except the last;
/// otherwise it ends the run, and the search if the straight is complete.
pub open spec fn straight_from(
    hand: Seq<Card>,
    mods: EvalMods,
    j: int,
    s: StraightScan,
) -> StraightScan
    decreases 15 - j,
{
    if j < 1 || j > 14 {
        s
    } else {
        let m = members(hand, straight_id(j));
        if m.len() > 0 {
            let length = s.length + 1;
            straight_from(
                hand,
                mods,
                j + 1,
                StraightScan {
                    length,
                    complete: s.complete || length >= mods.need(),
                    skipped: false,
                    cards: s.cards + m,
                },
            )
        } else if mods.shortcut && !s.skipped && j != 14 {
            straight_from(
                hand,
                mods,
                j + 1,
                StraightScan {
                    complete: s.complete || s.length >= mods.need(),
                    skipped: true,
                    ..s
                },
            )
        } else if s.complete {
            s
        } else {
            straight_from(
                hand,
                mods,
                j + 1,
                StraightScan { length: 0, complete: false, skipped: false, cards: seq![] },
            )
        }
    }
}

/// The straight in a selection of at most five cards, with every card of each
/// of its ranks.
pub open spec fn straight_groups(hand: Seq<Card>, mods: EvalMods) -> Seq<Seq<usize>> {
    if hand.len() > 5 || hand.len() < mods.need() {
        seq![]
    } else {
        let s = straight_from(
            hand,
            mods,
            1,
            StraightScan { length: 0, complete: false, skipped: false, cards: seq![] },
        );
        if s.complete {
            seq![s.cards]
        } else {
            seq![]
        }
    }
}

/// Whether `a` is a higher card than `b`: by sort key, then the older one.
pub open spec fn outranks(a: Card, b: Card) -> bool {
    let x = a.sort_key(false);
    let y = b.sort_key(false);
    y.below(x) || (x.same_value(y) && a.sort_id < b.sort_id)
}

/// The place of the highest card among the first `n`.
pub open spec fn highest_to(hand: Seq<Card>, n: nat) -> int
    decreases n,
{
    if n <= 1 {
        0
    } else {
        let h = highest_to(hand, (n - 1) as nat);
        if outranks(hand[n - 1], hand[h]) {
            n - 1
        } else {
            h
        }
    }
}

/// The highest card of a selection.
pub open spec fn highest_groups(hand: Seq<Card>) -> Seq<Seq<usize>> {
    if hand.len() == 0 {
        seq![]
    } else {
        seq![seq![highest_to(hand, hand.len()) as usize]]
    }
}

/// `a` followed by what of `b` is not in `a`, of the first `n` of `b`.
pub open spec fn union_to(a: Seq<usize>, b: Seq<usize>, n: nat) -> Seq<usize>
    decreases n,
{
    if n == 0 {
        a
    } else {
        let before = union_to(a, b, (n - 1) as nat);
        if a.contains(b[n - 1]) {
            before
        } else {
            before.push(b[n - 1])
        }
    }
}

/// At most the first `n` groups.
pub open spec fn at_most<T>(s: Seq<T>, n: int) -> Seq<T> {
    if s.len() > n {
        s.take(n)
    } else {
        s
    }
}

/// The groups of cards that make up each hand in a selection, before the
/// hands that a higher one contains are filled in.
pub open spec fn own_groups(hand: Seq<Card>, mods: EvalMods, ht: HandType) -> Seq<Seq<usize>> {
    let five = same_rank(5, hand);
    let four = same_rank(4, hand);
    let three = same_rank(3, hand);
    let two = same_rank(2, hand);
    let flush = flush_groups(hand, mods);
    let straight = straight_groups(hand, mods);
    match ht {
        HandType::FlushFive => if flush.len() > 0 {
            five
        } else {
            seq![]
        },
        HandType::FlushHouse => if three.len() > 0 && two.len() > 0 && flush.len() > 0 {
            seq![three[0] + two[0]]
        } else {
            seq![]
        },
        HandType::FiveOfAKind => five,
        HandType::StraightFlush => if flush.len() > 0 && straight.len() > 0 {
            seq![union_to(flush[0], straight[0], straight[0].len())]
        } else {
            seq![]
        },
        HandType::FourOfAKind => four,
        HandType::FullHouse => if three.len() > 0 && two.len() > 0 {
            seq![three[0] + two[0]]
        } else {
            seq![]
        },
        HandType::Flush => flush,
        HandType::Straight => straight,
        HandType::ThreeOfAKind => three,
        HandType::TwoPair => if two.len() == 2 {
            seq![two[0] + two[1]]
        } else if three.len() == 1 && two.len() == 1 {
            seq![two[0] + three[0]]
        } else {
            seq![]
        },
        HandType::Pair => two,
        HandType::HighCard => highest_groups(hand),
    }
}

/// The groups of cards that make up each hand in a selection. Five of a kind
/// is also four, four is also three, three is also a pair.
pub open spec fn hand_groups(hand: Seq<Card>, mods: EvalMods, ht: HandType) -> Seq<Seq<usize>> {
    let five = own_groups(hand, mods, HandType::FiveOfAKind);
    let four = if five.len() > 0 {
        at_most(five, 4)
    } else {
        own_groups(hand, mods, HandType::FourOfAKind)
    };
    let three = if four.len() > 0 {
        at_most(four, 3)
    } else {
        own_groups(hand, mods, HandType::ThreeOfAKind)
    };
    let two = if three.len() > 0 {
        at_most(three, 2)
    } else {
        own_groups(hand, mods, HandType::Pair)
    };
    match ht {
        HandType::FourOfAKind => four,
        HandType::ThreeOfAKind => three,
        HandType::Pair => two,
        other => own_groups(hand, mods, other),
    }
}

/// The hands from the strongest to the weakest.
pub open spec fn by_strength(i: int) -> HandType {
    HandType::ALL[11 - i]
}

/// The strongest hand from place `i` of the order of strength on that has a
/// group.
pub open spec fn strongest_from(
    groups: spec_fn(HandType) -> Seq<Seq<usize>>,
    i: int,
) -> Option<HandType>
    decreases 12 - i,
{
    if i < 0 || i >= 12 {
        None
    } else if groups(by_strength(i)).len() > 0 {
        Some(by_strength(i))
    } else {
        strongest_from(groups, i + 1)
    }
}

/// The strongest hand in a selection.
pub open spec fn top_hand(hand: Seq<Card>, mods: EvalMods) -> Option<HandType> {
    strongest_from(|ht: HandType| own_groups(hand, mods, ht), 0)
}

/// The contents of a vector of vectors.
pub open spec fn contents(v: Seq<Vec<usize>>) -> Seq<Seq<usize>> {
    Seq::new(v.len(), |i: int| v[i]@)
}

/// The groups of every hand that a selection holds, and the strongest hand.
#[derive(Debug, Clone)]
pub struct PokerHands {
    pub high_card: Vec<Vec<usize>>,
    pub pair: Vec<Vec<usize>>,
    pub two_pair: Vec<Vec<usize>>,
    pub three: Vec<Vec<usize>>,
    pub straight: Vec<Vec<usize>>,
    pub flush: Vec<Vec<usize>>,
    pub full_house: Vec<Vec<usize>>,
    pub four: Vec<Vec<usize>>,
    pub straight_flush: Vec<Vec<usize>>,
    pub five: Vec<Vec<usize>>,
    pub flush_house: Vec<Vec<usize>>,
    pub flush_five: Vec<Vec<usize>>,
    pub top: Option<HandType>,
}

impl PokerHands {
    /// The groups of a hand.
    pub open spec fn groups(self, ht: HandType) -> Seq<Seq<usize>> {
        match ht {
            HandType::HighCard => contents(self.high_card@),
            HandType::Pair => contents(self.pair@),
            HandType::TwoPair => contents(self.two_pair@),
            HandType::ThreeOfAKind => contents(self.three@),
            HandType::Straight => contents(self.straight@),
            HandType::Flush => contents(self.flush@),
            HandType::FullHouse => contents(self.full_house@),
            HandType::FourOfAKind => contents(self.four@),
            HandType::StraightFlush => contents(self.straight_flush@),
            HandType::FiveOfAKind => contents(self.five@),
            HandType::FlushHouse => contents(self.flush_house@),
            HandType::FlushFive => contents(self.flush_five@),
        }
    }

    /// The hands of a selection.
    pub open spec fn holds(self, hand: Seq<Card>, mods: EvalMods) -> bool {
        &&& forall|ht: HandType| #[trigger] self.groups(ht) == hand_groups(hand, mods, ht)
        &&& self.top == top_hand(hand, mods)
    }

    pub fn get(&self, ht: HandType) -> (r: &Vec<Vec<usize>>)
        ensures
            contents(r@) == self.groups(ht),
    {
        match ht {
            HandType::HighCard => &self.high_card,
            HandType::Pair => &self.pair,
            HandType::TwoPair => &self.two_pair,
            HandType::ThreeOfAKind => &self.three,
            HandType::Straight => &self.straight,
            HandType::Flush => &self.flush,
            HandType::FullHouse => &self.full_house,
            HandType::FourOfAKind => &self.four,
            HandType::StraightFlush => &self.straight_flush,
            HandType::FiveOfAKind => &self.five,
            HandType::FlushHouse => &self.flush_house,
            HandType::FlushFive => &self.flush_five,
        }
    }

    /// Whether the selection holds a hand.
    pub fn has(&self, ht: HandType) -> (r: bool)
        ensures
            r == (self.groups(ht).len() > 0),
    {
        self.get(ht).len() > 0
    }
}

impl Default for PokerHands {
    fn default() -> (r: Self)
        ensures
            forall|ht: HandType| #[trigger] r.groups(ht) == Seq::<Seq<usize>>::empty(),
            r.top == None::<HandType>,
    {
        let r = PokerHands {
            high_card: Vec::new(),
            pair: Vec::new(),
            two_pair: Vec::new(),
            three: Vec::new(),
            straight: Vec::new(),
            flush: Vec::new(),
            full_house: Vec::new(),
            four: Vec::new(),
            straight_flush: Vec::new(),
            five: Vec::new(),
            flush_house: Vec::new(),
            flush_five: Vec::new(),
            top: None,
        };
        assert forall|ht: HandType| #[trigger] r.groups(ht) == Seq::<Seq<usize>>::empty() by {
            assert(r.groups(ht) =~= Seq::<Seq<usize>>::empty());
        }
        r
    }
}

// ---- execution -----------------------------------------------------------

fn copy_group(g: &Vec<usize>) -> (r: Vec<usize>)
    ensures
        r@ == g@,
{
    let mut r: Vec<usize> = Vec::new();
    append_group(&mut r, g);
    assert(r@ =~= g@);
    r
}

fn append_group(to: &mut Vec<usize>, g: &Vec<usize>)
    ensures
        final(to)@ == old(to)@ + g@,
{
    let ghost start = to@;
    let mut i: usize = 0;
    while i < g.len()
        invariant
            i <= g.len(),
            to@ == start + g@.take(i as int),
        decreases g.len() - i,
    {
        to.push(g[i]);
        i = i + 1;
        assert(to@ =~= start + g@.take(i as int));
    }
    assert(g@.take(i as int) =~= g@);
}

/// A copy of at most the first `n` groups.
fn copy_groups(v: &Vec<Vec<usize>>, n: usize) -> (r: Vec<Vec<usize>>)
    ensures
        contents(r@) == at_most(contents(v@), n as int),
{
    let mut r: Vec<Vec<usize>> = Vec::new();
    let mut i: usize = 0;
    while i < v.len() && i < n
        invariant
            i <= v.len(),
            i <= n,
            contents(r@) == contents(v@).take(i as int),
        decreases v.len() - i,
    {
        let g = copy_group(&v[i]);
        let ghost before = r@;
        r.push(g);
        i = i + 1;
        assert(contents(r@) =~= contents(before).push(g@));
        assert(contents(v@).take(i as int) =~= contents(v@).take(i - 1).push(g@));
    }
    assert(contents(r@) =~= at_most(contents(v@), n as int));
    r
}

fn copy_all(v: &Vec<Vec<usize>>) -> (r: Vec<Vec<usize>>)
    ensures
        contents(r@) == contents(v@),
{
    copy_groups(v, v.len())
}

fn one_group(g: Vec<usize>) -> (r: Vec<Vec<usize>>)
    ensures
        contents(r@) == seq![g@],
{
    let ghost s = g@;
    let mut r: Vec<Vec<usize>> = Vec::new();
    r.push(g);
    assert(contents(r@) =~= seq![s]);
    r
}

fn no_groups() -> (r: Vec<Vec<usize>>)
    ensures
        contents(r@) == Seq::<Seq<usize>>::empty(),
{
    let r: Vec<Vec<usize>> = Vec::new();
    assert(contents(r@) =~= Seq::<Seq<usize>>::empty());
    r
}

fn rank_members(hand: &Vec<Card>, id: u8) -> (r: Vec<usize>)
    ensures
        r@ == members(hand@, id),
{
    let mut r: Vec<usize> = Vec::new();
    let mut i: usize = 0;
    while i < hand.len()
        invariant
            i <= hand.len(),
            r@ == members_to(hand@, id, i as nat),
        decreases hand.len() - i,
    {
        let same = match hand[i].id_for_eval() {
            Some(k) => k == id,
            None => false,
        };
        if same {
            r.push(i);
        }
        i = i + 1;
    }
    r
}

/// The groups of exactly `num` cards of one rank, highest rank first.
pub fn get_x_same(num: usize, hand: &Vec<Card>) -> (r: Vec<Vec<usize>>)
    ensures
        contents(r@) == same_rank(num as nat, hand@),
{
    let mut r: Vec<Vec<usize>> = Vec::new();
    let mut id: u8 = 14;
    let ghost goal = same_rank(num as nat, hand@);
    assert(contents(r@) + groups_from(num as nat, hand@, 14) =~= goal);
    while id > 0
        invariant
            id <= 14,
            contents(r@) + groups_from(num as nat, hand@, id) == goal,
        decreases id,
    {
        let m = rank_members(hand, id);
        let ghost g = m@;
        let ghost before = r@;
        let ghost rest = groups_from(num as nat, hand@, (id - 1) as u8);
        if num > 0 && m.len() == num {
            r.push(m);
            assert(contents(r@) =~= contents(before).push(g));
            assert(contents(r@) + rest =~= contents(before) + (seq![g] + rest));
        }
        id = id - 1;
    }
    assert(contents(r@) =~= goal);
    r
}

fn suit_members(hand: &Vec<Card>, suit: Suit, smeared: bool) -> (r: Vec<usize>)
    ensures
        r@ == suited(hand@, suit, smeared),
{
    let mut r: Vec<usize> = Vec::new();
    let mut i: usize = 0;
    while i < hand.len()
        invariant
            i <= hand.len(),
            r@ == suited_to(hand@, suit, smeared, i as nat),
        decreases hand.len() - i,
    {
        if hand[i].is_suit(suit, smeared) {
            r.push(i);
        }
        i = i + 1;
    }
    r
}

/// The flush in a selection of at most five cards.
pub fn get_flush(hand: &Vec<Card>, mods: &EvalMods) -> (r: Vec<Vec<usize>>)
    ensures
        contents(r@) == flush_groups(hand@, *mods),
{
    let need: usize = if mods.four_fingers {
        4
    } else {
        5
    };
    if hand.len() > 5 || hand.len() < need {
        return no_groups();
    }
    let t = suit_members(hand, Suit::Spades, mods.smeared);
    if t.len() >= need {
        return one_group(t);
    }
    let t = suit_members(hand, Suit::Hearts, mods.smeared);
    if t.len() >= need {
        return one_group(t);
    }
    let t = suit_members(hand, Suit::Clubs, mods.smeared);
    if t.len() >= need {
        return one_group(t);
    }
    let t = suit_members(hand, Suit::Diamonds, mods.smeared);
    if t.len() >= need {
        return one_group(t);
    }
    no_groups()
}

/// The straight in a selection of at most five cards. The Ace counts as 1 and
/// as 14.
pub fn get_straight(hand: &Vec<Card>, mods: &EvalMods) -> (r: Vec<Vec<usize>>)
    ensures
        contents(r@) == straight_groups(hand@, *mods),
{
    let need: usize = if mods.four_fingers {
        4
    } else {
        5
    };
    if hand.len() > 5 || hand.len() < need {
        return no_groups();
    }
    let mut t: Vec<usize> = Vec::new();
    let mut length: usize = 0;
    let mut complete = false;
    let mut skipped = false;
    let mut ended = false;
    let mut j: u8 = 1;
    let ghost goal = straight_from(
        hand@,
        *mods,
        1,
        StraightScan { length: 0, complete: false, skipped: false, cards: seq![] },
    );
    assert(t@ =~= seq![]);
    while j <= 14 && !ended
        invariant
            1 <= j <= 15,
            need == mods.need(),
            length < j,
            ended ==> goal == (StraightScan {
                length: length as nat,
                complete,
                skipped,
                cards: t@,
            }),
            !ended ==> straight_from(
                hand@,
                *mods,
                j as int,
                StraightScan { length: length as nat, complete, skipped, cards: t@ },
            ) == goal,
        decreases (if ended { 0int } else { 16 - j }),
    {
        let m = rank_members(
            hand,
            if j == 1 {
                14
            } else {
                j
            },
        );
        if m.len() > 0 {
            length = length + 1;
            skipped = false;
            append_group(&mut t, &m);
            if length >= need {
                complete = true;
            }
            j = j + 1;
        } else if mods.shortcut && !skipped && j != 14 {
            skipped = true;
            if length >= need {
                complete = true;
            }
            j = j + 1;
        } else if complete {
            ended = true;
        } else {
            length = 0;
            skipped = false;
            t = Vec::new();
            assert(t@ =~= seq![]);
            j = j + 1;
        }
    }
    if complete {
        one_group(t)
    } else {
        no_groups()
    }
}

/// The highest card of a selection.
pub fn get_highest(hand: &Vec<Card>) -> (r: Vec<Vec<usize>>)
    ensures
        contents(r@) == highest_groups(hand@),
{
    if hand.len() == 0 {
        return no_groups();
    }
    let mut h: usize = 0;
    let mut i: usize = 1;
    while i < hand.len()
        invariant
            1 <= i <= hand.len(),
            h < i,
            h == highest_to(hand@, i as nat),
        decreases hand.len() - i,
    {
        let a = hand[i].get_nominal(false);
        let b = hand[h].get_nominal(false);
        if b.lt(a) || (a.equals(b) && hand[i].sort_id < hand[h].sort_id) {
            h = i;
        }
        i = i + 1;
    }
    let mut g: Vec<usize> = Vec::new();
    g.push(h);
    assert(g@ =~= seq![h]);
    one_group(g)
}

fn group_has(g: &Vec<usize>, x: usize) -> (r: bool)
    ensures
        r == g@.contains(x),
{
    let mut i: usize = 0;
    while i < g.len()
        invariant
            i <= g.len(),
            forall|k: int| 0 <= k < i ==> g@[k] != x,
        decreases g.len() - i,
    {
        if g[i] == x {
            return true;
        }
        i = i + 1;
    }
    false
}

fn union_groups(a: &Vec<usize>, b: &Vec<usize>) -> (r: Vec<usize>)
    ensures
        r@ == union_to(a@, b@, b@.len()),
{
    let mut r = copy_group(a);
    let mut i: usize = 0;
    while i < b.len()
        invariant
            i <= b.len(),
            r@ == union_to(a@, b@, i as nat),
        decreases b.len() - i,
    {
        if !group_has(a, b[i]) {
            r.push(b[i]);
        }
        i = i + 1;
    }
    r
}

fn joined(a: &Vec<usize>, b: &Vec<usize>) -> (r: Vec<Vec<usize>>)
    ensures
        contents(r@) == seq![a@ + b@],
{
    let mut g = copy_group(a);
    append_group(&mut g, b);
    one_group(g)
}

/// Everything that a selection holds.
pub fn evaluate_poker_hand(hand: &Vec<Card>, mods: &EvalMods) -> (r: PokerHands)
    ensures
        r.holds(hand@, *mods),
{
    let five = get_x_same(5, hand);
    let four = get_x_same(4, hand);
    let three = get_x_same(3, hand);
    let two = get_x_same(2, hand);
    let flush = get_flush(hand, mods);
    let straight = get_straight(hand, mods);
    let highest = get_highest(hand);
    let ghost own = |ht: HandType| own_groups(hand@, *mods, ht);

    let flush_five = if five.len() > 0 && flush.len() > 0 {
        copy_all(&five)
    } else {
        no_groups()
    };
    assert(contents(flush_five@) =~= own(HandType::FlushFive));
    let flush_house = if three.len() > 0 && two.len() > 0 && flush.len() > 0 {
        joined(&three[0], &two[0])
    } else {
        no_groups()
    };
    assert(contents(flush_house@) =~= own(HandType::FlushHouse)) by {
        if three.len() > 0 && two.len() > 0 {
            assert(contents(three@)[0] == three@[0]@ && contents(two@)[0] == two@[0]@);
        }
    }
    let straight_flush = if flush.len() > 0 && straight.len() > 0 {
        one_group(union_groups(&flush[0], &straight[0]))
    } else {
        no_groups()
    };
    assert(contents(straight_flush@) =~= own(HandType::StraightFlush)) by {
        if flush.len() > 0 && straight.len() > 0 {
            assert(contents(flush@)[0] == flush@[0]@ && contents(straight@)[0] == straight@[0]@);
        }
    }
    let full_house = if three.len() > 0 && two.len() > 0 {
        joined(&three[0], &two[0])
    } else {
        no_groups()
    };
    assert(contents(full_house@) =~= own(HandType::FullHouse)) by {
        if three.len() > 0 && two.len() > 0 {
            assert(contents(three@)[0] == three@[0]@ && contents(two@)[0] == two@[0]@);
        }
    }
    let two_pair = if two.len() == 2 {
        joined(&two[0], &two[1])
    } else if three.len() == 1 && two.len() == 1 {
        joined(&two[0], &three[0])
    } else {
        no_groups()
    };
    assert(contents(two_pair@) =~= own(HandType::TwoPair)) by {
        if two.len() == 2 {
            assert(contents(two@)[0] == two@[0]@ && contents(two@)[1] == two@[1]@);
        } else if three.len() == 1 && two.len() == 1 {
            assert(contents(two@)[0] == two@[0]@ && contents(three@)[0] == three@[0]@);
        }
    }

    let top = if flush_five.len() > 0 {
        Some(HandType::FlushFive)
    } else if flush_house.len() > 0 {
        Some(HandType::FlushHouse)
    } else if five.len() > 0 {
        Some(HandType::FiveOfAKind)
    } else if straight_flush.len() > 0 {
        Some(HandType::StraightFlush)
    } else if four.len() > 0 {
        Some(HandType::FourOfAKind)
    } else if full_house.len() > 0 {
        Some(HandType::FullHouse)
    } else if flush.len() > 0 {
        Some(HandType::Flush)
    } else if straight.len() > 0 {
        Some(HandType::Straight)
    } else if three.len() > 0 {
        Some(HandType::ThreeOfAKind)
    } else if two_pair.len() > 0 {
        Some(HandType::TwoPair)
    } else if two.len() > 0 {
        Some(HandType::Pair)
    } else if highest.len() > 0 {
        Some(HandType::HighCard)
    } else {
        None
    };
    proof {
        lemma_strongest(own);
    }

    let four_of = if five.len() > 0 {
        copy_groups(&five, 4)
    } else {
        four
    };
    let three_of = if four_of.len() > 0 {
        copy_groups(&four_of, 3)
    } else {
        three
    };
    let pair = if three_of.len() > 0 {
        copy_groups(&three_of, 2)
    } else {
        two
    };
    let r = PokerHands {
        high_card: highest,
        pair,
        two_pair,
        three: three_of,
        straight,
        flush,
        full_house,
        four: four_of,
        straight_flush,
        five,
        flush_house,
        flush_five,
        top,
    };
    assert forall|ht: HandType| #[trigger] r.groups(ht) == hand_groups(hand@, *mods, ht) by {
        match ht {
            HandType::FourOfAKind => {},
            HandType::ThreeOfAKind => {},
            HandType::Pair => {},
            other => {
                assert(r.groups(ht) == own(ht));
            },
        }
    }
    r
}

/// The order of strength, written out.
proof fn lemma_strongest(groups: spec_fn(HandType) -> Seq<Seq<usize>>)
    ensures
        strongest_from(groups, 0) == if groups(HandType::FlushFive).len() > 0 {
            Some(HandType::FlushFive)
        } else if groups(HandType::FlushHouse).len() > 0 {
            Some(HandType::FlushHouse)
        } else if groups(HandType::FiveOfAKind).len() > 0 {
            Some(HandType::FiveOfAKind)
        } else if groups(HandType::StraightFlush).len() > 0 {
            Some(HandType::StraightFlush)
        } else if groups(HandType::FourOfAKind).len() > 0 {
            Some(HandType::FourOfAKind)
        } else if groups(HandType::FullHouse).len() > 0 {
            Some(HandType::FullHouse)
        } else if groups(HandType::Flush).len() > 0 {
            Some(HandType::Flush)
        } else if groups(HandType::Straight).len() > 0 {
            Some(HandType::Straight)
        } else if groups(HandType::ThreeOfAKind).len() > 0 {
            Some(HandType::ThreeOfAKind)
        } else if groups(HandType::TwoPair).len() > 0 {
            Some(HandType::TwoPair)
        } else if groups(HandType::Pair).len() > 0 {
            Some(HandType::Pair)
        } else if groups(HandType::HighCard).len() > 0 {
            Some(HandType::HighCard)
        } else {
            None
        },
{
    reveal_with_fuel(strongest_from, 13);
}

/// The hand that a selection is played as: the strongest one; the empty
/// selection counts as a high card without cards.
pub open spec fn played_hand(hand: Seq<Card>, mods: EvalMods) -> HandType {
    match strongest_from(|ht: HandType| hand_groups(hand, mods, ht), 0) {
        Some(ht) => ht,
        None => HandType::HighCard,
    }
}

/// The cards that make up the hand that a selection is played as.
pub open spec fn played_group(hand: Seq<Card>, mods: EvalMods) -> Seq<usize> {
    match strongest_from(|ht: HandType| hand_groups(hand, mods, ht), 0) {
        Some(ht) => hand_groups(hand, mods, ht)[0],
        None => seq![],
    }
}

/// The hand that a selection is played as, its cards, and everything that the
/// selection holds.
pub fn get_poker_hand_info(hand: &Vec<Card>, mods: &EvalMods) -> (r: (
    HandType,
    Vec<usize>,
    PokerHands,
))
    ensures
        r.0 == played_hand(hand@, *mods),
        r.1@ == played_group(hand@, *mods),
        r.2.holds(hand@, *mods),
{
    let poker_hands = evaluate_poker_hand(hand, mods);
    let ghost groups = |ht: HandType| hand_groups(hand@, *mods, ht);
    let mut i: usize = 0;
    while i < 12
        invariant
            i <= 12,
            poker_hands.holds(hand@, *mods),
            groups == (|ht: HandType| hand_groups(hand@, *mods, ht)),
            strongest_from(groups, i as int) == strongest_from(groups, 0),
        decreases 12 - i,
    {
        let ht = HandType::ALL[11 - i];
        assert(ht == by_strength(i as int));
        assert(poker_hands.groups(ht) == hand_groups(hand@, *mods, ht));
        if poker_hands.has(ht) {
            let list = poker_hands.get(ht);
            assert(contents(list@)[0] == list@[0]@);
            let scoring = copy_group(&list[0]);
            return (ht, scoring, poker_hands);
        }
        i = i + 1;
    }
    let none: Vec<usize> = Vec::new();
    assert(none@ =~= seq![]);
    (HandType::HighCard, none, poker_hands)
}

// ---- laws ----------------------------------------------------------------

/// Places below `n`.
pub open spec fn places_below(g: Seq<usize>, n: nat) -> bool {
    forall|i: int| 0 <= i < g.len() ==> #[trigger] g[i] < n
}

proof fn lemma_members_below(hand: Seq<Card>, id: u8, n: nat)
    requires
        n <= hand.len() <= usize::MAX,
    ensures
        places_below(members_to(hand, id, n), n),
        forall|i: int|
            0 <= i < members_to(hand, id, n).len() ==> hand[(#[trigger] members_to(
                hand,
                id,
                n,
            )[i]) as int].eval_id() == Some(id),
    decreases n,
{
    if n > 0 {
        lemma_members_below(hand, id, (n - 1) as nat);
    }
}

proof fn lemma_groups_from_below(num: nat, hand: Seq<Card>, id: u8)
    requires
        hand.len() <= usize::MAX,
    ensures
        forall|i: int|
            0 <= i < groups_from(num, hand, id).len() ==> places_below(
                #[trigger] groups_from(num, hand, id)[i],
                hand.len(),
            ),
    decreases id,
{
    if id > 0 {
        lemma_groups_from_below(num, hand, (id - 1) as u8);
        lemma_members_below(hand, id, hand.len());
        let rest = groups_from(num, hand, (id - 1) as u8);
        let all = groups_from(num, hand, id);
        assert forall|i: int| 0 <= i < all.len() implies places_below(
            #[trigger] all[i],
            hand.len(),
        ) by {
            if all.len() > rest.len() && i > 0 {
                assert(all[i] == rest[i - 1]);
            }
        }
    }
}

proof fn lemma_suited_below(hand: Seq<Card>, suit: Suit, smeared: bool, n: nat)
    requires
        n <= hand.len() <= usize::MAX,
    ensures
        places_below(suited_to(hand, suit, smeared, n), n),
    decreases n,
{
    if n > 0 {
        lemma_suited_below(hand, suit, smeared, (n - 1) as nat);
    }
}

proof fn lemma_straight_below(hand: Seq<Card>, mods: EvalMods, j: int, s: StraightScan)
    requires
        hand.len() <= usize::MAX,
        places_below(s.cards, hand.len()),
    ensures
        places_below(straight_from(hand, mods, j, s).cards, hand.len()),
    decreases 15 - j,
{
    if 1 <= j <= 14 {
        let m = members(hand, straight_id(j));
        lemma_members_below(hand, straight_id(j), hand.len());
        assert(places_below(s.cards + m, hand.len()));
        if m.len() > 0 {
            let length = s.length + 1;
            lemma_straight_below(
                hand,
                mods,
                j + 1,
                StraightScan {
                    length,
                    complete: s.complete || length >= mods.need(),
                    skipped: false,
                    cards: s.cards + m,
                },
            );
        } else if mods.shortcut && !s.skipped && j != 14 {
            lemma_straight_below(
                hand,
                mods,
                j + 1,
                StraightScan {
                    complete: s.complete || s.length >= mods.need(),
                    skipped: true,
                    ..s
                },
            );
        } else if !s.complete {
            lemma_straight_below(
                hand,
                mods,
                j + 1,
                StraightScan { length: 0, complete: false, skipped: false, cards: seq![] },
            );
        }
    }
}

proof fn lemma_highest_below(hand: Seq<Card>, n: nat)
    requires
        0 < n <= hand.len(),
    ensures
        0 <= highest_to(hand, n) < n,
    decreases n,
{
    if n > 1 {
        lemma_highest_below(hand, (n - 1) as nat);
    }
}

proof fn lemma_union_below(a: Seq<usize>, b: Seq<usize>, n: nat, k: nat)
    requires
        places_below(a, k),
        places_below(b, k),
        n <= b.len(),
    ensures
        places_below(union_to(a, b, n), k),
    decreases n,
{
    if n > 0 {
        lemma_union_below(a, b, (n - 1) as nat, k);
    }
}

/// Every group names cards of the selection.
pub proof fn law_groups_name_cards_of_the_hand(hand: Seq<Card>, mods: EvalMods, ht: HandType, i: int)
    requires
        hand.len() <= usize::MAX,
        0 <= i < hand_groups(hand, mods, ht).len(),
    ensures
        places_below(hand_groups(hand, mods, ht)[i], hand.len()),
{
    let n = hand.len();
    lemma_groups_from_below(5, hand, 14);
    lemma_groups_from_below(4, hand, 14);
    lemma_groups_from_below(3, hand, 14);
    lemma_groups_from_below(2, hand, 14);
    lemma_suited_below(hand, Suit::Spades, mods.smeared, n);
    lemma_suited_below(hand, Suit::Hearts, mods.smeared, n);
    lemma_suited_below(hand, Suit::Clubs, mods.smeared, n);
    lemma_suited_below(hand, Suit::Diamonds, mods.smeared, n);
    lemma_straight_below(
        hand,
        mods,
        1,
        StraightScan { length: 0, complete: false, skipped: false, cards: seq![] },
    );
    if n > 0 {
        lemma_highest_below(hand, n);
    }
    let flush = flush_groups(hand, mods);
    let straight = straight_groups(hand, mods);
    if flush.len() > 0 && straight.len() > 0 {
        lemma_union_below(flush[0], straight[0], straight[0].len(), n);
    }
    let two = same_rank(2, hand);
    let three = same_rank(3, hand);
    assert(forall|x: Seq<usize>, y: Seq<usize>|
        places_below(x, n) && places_below(y, n) ==> #[trigger] places_below(x + y, n));
    if two.len() > 0 {
        assert(places_below(two[0], n));
    }
    if two.len() > 1 {
        assert(places_below(two[1], n));
    }
    if three.len() > 0 {
        assert(places_below(three[0], n));
    }
}

proof fn lemma_strongest_has_a_group(groups: spec_fn(HandType) -> Seq<Seq<usize>>, i: int)
    ensures
        strongest_from(groups, i) matches Some(ht) ==> groups(ht).len() > 0,
    decreases 12 - i,
{
    if 0 <= i < 12 {
        lemma_strongest_has_a_group(groups, i + 1);
    }
}

/// The cards that make up the hand played are cards of the selection.
pub proof fn law_played_group_is_of_the_hand(hand: Seq<Card>, mods: EvalMods)
    requires
        hand.len() <= usize::MAX,
    ensures
        places_below(played_group(hand, mods), hand.len()),
{
    let groups = |ht: HandType| hand_groups(hand, mods, ht);
    lemma_strongest_has_a_group(groups, 0);
    match strongest_from(groups, 0) {
        Some(ht) => {
            law_groups_name_cards_of_the_hand(hand, mods, ht, 0);
        },
        None => {},
    }
}

/// Distinct places below a bound are no more than the bound.
pub proof fn lemma_distinct_places(t: Seq<usize>, n: nat)
    requires
        t.no_duplicates(),
        forall|i: int| 0 <= i < t.len() ==> #[trigger] t[i] < n,
    ensures
        t.len() <= n,
{
    let s = t.to_set();
    t.unique_seq_to_set();
    let all = vstd::set_lib::set_int_range(0, n as int);
    vstd::set_lib::lemma_int_range(0, n as int);
    let image = s.map(|x: usize| x as int);
    assert(image.subset_of(all)) by {
        assert forall|y: int| image.contains(y) implies all.contains(y) by {
            let x = choose|x: usize| s.contains(x) && y == x as int;
            assert(t.contains(x));
            let k = choose|k: int| 0 <= k < t.len() && t[k] == x;
            assert(t[k] < n);
        }
    }
    vstd::set_lib::lemma_len_subset(image, all);
    vstd::set_lib::lemma_map_size(s, image, |x: usize| x as int);
}

proof fn lemma_members_distinct(hand: Seq<Card>, id: u8, n: nat)
    requires
        n <= hand.len() <= usize::MAX,
    ensures
        members_to(hand, id, n).no_duplicates(),
    decreases n,
{
    if n > 0 {
        lemma_members_distinct(hand, id, (n - 1) as nat);
        lemma_members_below(hand, id, (n - 1) as nat);
    }
}

proof fn lemma_suited_distinct(hand: Seq<Card>, suit: Suit, smeared: bool, n: nat)
    requires
        n <= hand.len() <= usize::MAX,
    ensures
        suited_to(hand, suit, smeared, n).no_duplicates(),
    decreases n,
{
    if n > 0 {
        lemma_suited_distinct(hand, suit, smeared, (n - 1) as nat);
        lemma_suited_below(hand, suit, smeared, (n - 1) as nat);
    }
}

/// The cards of two ranks are different cards.
proof fn lemma_ranks_apart(hand: Seq<Card>, x: u8, y: u8)
    requires
        hand.len() <= usize::MAX,
        x != y,
    ensures
        (members(hand, x) + members(hand, y)).no_duplicates(),
{
    lemma_members_distinct(hand, x, hand.len());
    lemma_members_distinct(hand, y, hand.len());
    lemma_members_below(hand, x, hand.len());
    lemma_members_below(hand, y, hand.len());
    let a = members(hand, x);
    let b = members(hand, y);
    assert forall|i: int, j: int| 0 <= i < a.len() && 0 <= j < b.len() implies a[i] != b[j] by {
        assert(hand[a[i] as int].eval_id() == Some(x));
        assert(hand[b[j] as int].eval_id() == Some(y));
    }
}

/// The rank of each of the groups of one size, highest first.
pub open spec fn group_ranks(num: nat, hand: Seq<Card>, id: u8) -> Seq<u8>
    decreases id,
{
    if id == 0 {
        seq![]
    } else {
        let rest = group_ranks(num, hand, (id - 1) as u8);
        if num > 0 && members(hand, id).len() == num {
            seq![id] + rest
        } else {
            rest
        }
    }
}

pub proof fn lemma_group_ranks(num: nat, hand: Seq<Card>, id: u8)
    ensures
        group_ranks(num, hand, id).len() == groups_from(num, hand, id).len(),
        forall|i: int|
            0 <= i < groups_from(num, hand, id).len() ==> #[trigger] groups_from(num, hand, id)[i]
                == members(hand, group_ranks(num, hand, id)[i]),
        forall|i: int|
            0 <= i < group_ranks(num, hand, id).len() ==> (#[trigger] group_ranks(
                num,
                hand,
                id,
            )[i]) <= id && members(hand, group_ranks(num, hand, id)[i]).len() == num,
        group_ranks(num, hand, id).no_duplicates(),
    decreases id,
{
    if id > 0 {
        lemma_group_ranks(num, hand, (id - 1) as u8);
        let rest = group_ranks(num, hand, (id - 1) as u8);
        let all = group_ranks(num, hand, id);
        let groups = groups_from(num, hand, id);
        let others = groups_from(num, hand, (id - 1) as u8);
        if all.len() > rest.len() {
            assert forall|i: int| 0 < i < all.len() implies (#[trigger] all[i]) == rest[i - 1]
                && groups[i] == others[i - 1] by {}
        }
    }
}

/// What a search for a straight keeps: the cards are different ones, of ranks
/// that were looked at; and where the Ace is the lowest of them, the search has
/// not gone further than two ranks for each card.
spec fn scan_apart(hand: Seq<Card>, j: int, s: StraightScan) -> bool {
    &&& s.cards.no_duplicates()
    &&& places_below(s.cards, hand.len())
    &&& j == 1 ==> s.cards.len() == 0
    &&& forall|i: int|
        0 <= i < s.cards.len() ==> match hand[(#[trigger] s.cards[i]) as int].eval_id() {
            Some(id) => id == 14 || id < j,
            None => false,
        }
    &&& j <= 14 && (exists|i: int|
        0 <= i < s.cards.len() && hand[(#[trigger] s.cards[i]) as int].eval_id() == Some(14u8))
        ==> j - 1 + (if s.skipped {
        0int
    } else {
        1
    }) <= 2 * s.cards.len()
}

proof fn lemma_scan_apart(hand: Seq<Card>, mods: EvalMods, j: int, s: StraightScan)
    requires
        hand.len() <= 5,
        1 <= j <= 15,
        scan_apart(hand, j, s),
    ensures
        straight_from(hand, mods, j, s).cards.no_duplicates(),
    decreases 15 - j,
{
    if j <= 14 {
        let id = straight_id(j);
        let m = members(hand, id);
        lemma_members_below(hand, id, hand.len());
        lemma_members_distinct(hand, id, hand.len());
        lemma_distinct_places(s.cards, hand.len());
        if m.len() > 0 {
            let length = s.length + 1;
            let next = StraightScan {
                length,
                complete: s.complete || length >= mods.need(),
                skipped: false,
                cards: s.cards + m,
            };
            assert(scan_apart(hand, j + 1, next)) by {
                assert forall|a: int, b: int|
                    0 <= a < s.cards.len() && 0 <= b < m.len() implies s.cards[a] != m[b] by {
                    assert(hand[m[b] as int].eval_id() == Some(id));
                    assert(hand[s.cards[a] as int].eval_id() is Some);
                    if hand[s.cards[a] as int].eval_id() == Some(14u8) {
                        assert(j - 1 <= 2 * s.cards.len());
                    }
                }
                assert forall|i: int|
                    0 <= i < next.cards.len() implies match hand[(
                #[trigger] next.cards[i]) as int].eval_id() {
                    Some(id) => id == 14 || id < j + 1,
                    None => false,
                } by {
                    if i < s.cards.len() {
                        assert(next.cards[i] == s.cards[i]);
                    } else {
                        assert(next.cards[i] == m[i - s.cards.len()]);
                    }
                }
                if 2 <= j <= 13 {
                    assert forall|i: int|
                        0 <= i < next.cards.len() && hand[(
                        #[trigger] next.cards[i]) as int].eval_id() == Some(14u8) implies i
                        < s.cards.len() && next.cards[i] == s.cards[i] by {
                        if i >= s.cards.len() {
                            assert(next.cards[i] == m[i - s.cards.len()]);
                        }
                    }
                }
            }
            lemma_scan_apart(hand, mods, j + 1, next);
        } else if mods.shortcut && !s.skipped && j != 14 {
            lemma_scan_apart(
                hand,
                mods,
                j + 1,
                StraightScan {
                    complete: s.complete || s.length >= mods.need(),
                    skipped: true,
                    ..s
                },
            );
        } else if !s.complete {
            lemma_scan_apart(
                hand,
                mods,
                j + 1,
                StraightScan { length: 0, complete: false, skipped: false, cards: seq![] },
            );
        }
    }
}

proof fn lemma_union_distinct(a: Seq<usize>, b: Seq<usize>, n: nat)
    requires
        a.no_duplicates(),
        b.no_duplicates(),
        n <= b.len(),
    ensures
        union_to(a, b, n).no_duplicates(),
        forall|x: usize| #[trigger]
            union_to(a, b, n).contains(x) ==> a.contains(x) || b.take(n as int).contains(x),
    decreases n,
{
    if n > 0 {
        lemma_union_distinct(a, b, (n - 1) as nat);
        let before = union_to(a, b, (n - 1) as nat);
        let y = b[n - 1];
        let t = b.take(n - 1);
        assert forall|x: usize| #[trigger] union_to(a, b, n).contains(x) implies a.contains(x)
            || b.take(n as int).contains(x) by {
            if before.contains(x) {
                if !a.contains(x) {
                    let k = choose|k: int| 0 <= k < t.len() && t[k] == x;
                    assert(b.take(n as int)[k] == x);
                }
            } else {
                assert(x == y);
                assert(b.take(n as int)[n - 1] == y);
            }
        }
        if !a.contains(y) && before.contains(y) {
            let k = choose|k: int| 0 <= k < t.len() && t[k] == y;
            assert(b[k] == b[n - 1]);
        }
    }
}

/// No group names a card twice.
pub proof fn law_groups_name_cards_once(hand: Seq<Card>, mods: EvalMods, ht: HandType, i: int)
    requires
        hand.len() <= usize::MAX,
        0 <= i < hand_groups(hand, mods, ht).len(),
    ensures
        hand_groups(hand, mods, ht)[i].no_duplicates(),
{
    let n = hand.len();
    assert forall|x: u8| (#[trigger] members(hand, x)).no_duplicates() by {
        lemma_members_distinct(hand, x, n);
    }
    lemma_group_ranks(5, hand, 14);
    lemma_group_ranks(4, hand, 14);
    lemma_group_ranks(3, hand, 14);
    lemma_group_ranks(2, hand, 14);
    lemma_suited_distinct(hand, Suit::Spades, mods.smeared, n);
    lemma_suited_distinct(hand, Suit::Hearts, mods.smeared, n);
    lemma_suited_distinct(hand, Suit::Clubs, mods.smeared, n);
    lemma_suited_distinct(hand, Suit::Diamonds, mods.smeared, n);
    if n <= 5 {
        lemma_scan_apart(
            hand,
            mods,
            1,
            StraightScan { length: 0, complete: false, skipped: false, cards: seq![] },
        );
    }
    let flush = flush_groups(hand, mods);
    let straight = straight_groups(hand, mods);
    if flush.len() > 0 && straight.len() > 0 {
        lemma_union_distinct(flush[0], straight[0], straight[0].len());
    }
    let two = same_rank(2, hand);
    let three = same_rank(3, hand);
    let r2 = group_ranks(2, hand, 14);
    let r3 = group_ranks(3, hand, 14);
    if two.len() > 0 && three.len() > 0 {
        lemma_ranks_apart(hand, r3[0], r2[0]);
        lemma_ranks_apart(hand, r2[0], r3[0]);
    }
    if two.len() > 1 {
        lemma_ranks_apart(hand, r2[0], r2[1]);
    }
}

/// The cards that make up the hand played are named once.
pub proof fn law_played_group_names_cards_once(hand: Seq<Card>, mods: EvalMods)
    requires
        hand.len() <= usize::MAX,
    ensures
        played_group(hand, mods).no_duplicates(),
{
    let groups = |ht: HandType| hand_groups(hand, mods, ht);
    lemma_strongest_has_a_group(groups, 0);
    match strongest_from(groups, 0) {
        Some(ht) => {
            law_groups_name_cards_once(hand, mods, ht, 0);
        },
        None => {},
    }
}

/// Five of a kind is also four, four also three, three also a pair; a
/// selection that is not empty has a high card.
pub proof fn law_hands_contain_lower_hands(hand: Seq<Card>, mods: EvalMods)
    ensures
        hand_groups(hand, mods, HandType::FlushFive).len() > 0 ==> hand_groups(
            hand,
            mods,
            HandType::FiveOfAKind,
        ).len() > 0 && hand_groups(hand, mods, HandType::Flush).len() > 0,
        hand_groups(hand, mods, HandType::FiveOfAKind).len() > 0 ==> hand_groups(
            hand,
            mods,
            HandType::FourOfAKind,
        ).len() > 0,
        hand_groups(hand, mods, HandType::FourOfAKind).len() > 0 ==> hand_groups(
            hand,
            mods,
            HandType::ThreeOfAKind,
        ).len() > 0,
        hand_groups(hand, mods, HandType::ThreeOfAKind).len() > 0 ==> hand_groups(
            hand,
            mods,
            HandType::Pair,
        ).len() > 0,
        hand_groups(hand, mods, HandType::FlushHouse).len() > 0 ==> hand_groups(
            hand,
            mods,
            HandType::FullHouse,
        ).len() > 0 && hand_groups(hand, mods, HandType::Flush).len() > 0,
        hand_groups(hand, mods, HandType::StraightFlush).len() > 0 <==> hand_groups(
            hand,
            mods,
            HandType::Straight,
        ).len() > 0 && hand_groups(hand, mods, HandType::Flush).len() > 0,
        hand_groups(hand, mods, HandType::HighCard).len() > 0 <==> hand.len() > 0,
{
}

/// A selection that is not empty is always played as some hand that it holds:
/// the strongest, with its first group.
pub proof fn law_every_selection_is_a_hand(hand: Seq<Card>, mods: EvalMods)
    requires
        hand.len() > 0,
    ensures
        top_hand(hand, mods) == Some(played_hand(hand, mods)),
        hand_groups(hand, mods, played_hand(hand, mods)).len() > 0,
        played_group(hand, mods) == hand_groups(hand, mods, played_hand(hand, mods))[0],
        forall|ht: HandType|
            hand_groups(hand, mods, ht).len() > 0 ==> ht.place() <= played_hand(
                hand,
                mods,
            ).place(),
{
    lemma_strongest(|ht: HandType| own_groups(hand, mods, ht));
    lemma_strongest(|ht: HandType| hand_groups(hand, mods, ht));
}

/// Whether the rank at place `j` of the search for a straight is there.
pub open spec fn has_rank(hand: Seq<Card>, j: int) -> bool {
    members(hand, straight_id(j)).len() > 0
}

/// `n` ranks in a row from place `a` on are there.
pub open spec fn has_run(hand: Seq<Card>, a: int, n: nat) -> bool {
    1 <= a && a + n <= 15 && forall|k: int| a <= k < a + n ==> #[trigger] has_rank(hand, k)
}

proof fn lemma_complete_stays(hand: Seq<Card>, mods: EvalMods, j: int, s: StraightScan)
    requires
        s.complete,
    ensures
        straight_from(hand, mods, j, s).complete,
    decreases 15 - j,
{
    if 1 <= j <= 14 {
        let m = members(hand, straight_id(j));
        if m.len() > 0 {
            let length = s.length + 1;
            lemma_complete_stays(
                hand,
                mods,
                j + 1,
                StraightScan {
                    length,
                    complete: s.complete || length >= mods.need(),
                    skipped: false,
                    cards: s.cards + m,
                },
            );
        } else if mods.shortcut && !s.skipped && j != 14 {
            lemma_complete_stays(
                hand,
                mods,
                j + 1,
                StraightScan {
                    complete: s.complete || s.length >= mods.need(),
                    skipped: true,
                    ..s
                },
            );
        }
    }
}

proof fn lemma_scan_finds_run(hand: Seq<Card>, mods: EvalMods, j: int, s: StraightScan)
    requires
        !mods.shortcut,
        1 <= j <= 15,
        !s.complete,
        s.length < mods.need(),
        s.length < j,
        forall|k: int| j - s.length <= k < j ==> #[trigger] has_rank(hand, k),
        j - s.length > 1 ==> !has_rank(hand, j - s.length - 1),
    ensures
        straight_from(hand, mods, j, s).complete <==> exists|a: int|
            a >= j - s.length && #[trigger] has_run(hand, a, mods.need()),
    decreases 15 - j,
{
    let n = mods.need();
    if j == 15 {
        assert forall|a: int| a >= j - s.length implies !#[trigger] has_run(hand, a, n) by {}
    } else {
        let m = members(hand, straight_id(j));
        if m.len() > 0 {
            assert(has_rank(hand, j));
            let length = s.length + 1;
            let next = StraightScan {
                length,
                complete: s.complete || length >= n,
                skipped: false,
                cards: s.cards + m,
            };
            if next.complete {
                lemma_complete_stays(hand, mods, j + 1, next);
                assert(has_run(hand, j - s.length, n));
            } else {
                lemma_scan_finds_run(hand, mods, j + 1, next);
                assert(j + 1 - next.length == j - s.length);
            }
        } else {
            assert(!has_rank(hand, j));
            let next = StraightScan { length: 0, complete: false, skipped: false, cards: seq![] };
            lemma_scan_finds_run(hand, mods, j + 1, next);
            assert forall|a: int| a >= j - s.length && #[trigger] has_run(hand, a, n) implies a
                >= j + 1 by {
                if a <= j {
                    assert(has_rank(hand, j));
                }
            }
        }
    }
}

/// Without Shortcut a selection of the right size holds a straight exactly if
/// enough ranks in a row are there, with the Ace below 2 or above the King.
pub proof fn law_straight_is_a_run_of_ranks(hand: Seq<Card>, mods: EvalMods)
    requires
        !mods.shortcut,
        mods.need() <= hand.len() <= 5,
    ensures
        hand_groups(hand, mods, HandType::Straight).len() > 0 <==> exists|a: int|
            #[trigger] has_run(hand, a, mods.need()),
{
    lemma_scan_finds_run(
        hand,
        mods,
        1,
        StraightScan { length: 0, complete: false, skipped: false, cards: seq![] },
    );
}

} // verus!
