//! What is in use: the count that a run keeps of every key.
use crate::run::RunModel;
use crate::shop::{
    OwnedConsumable, OwnedJoker, PackItem, PackModel, ShopItem, ShopModel, VoucherOffer,
};
use crate::trade;
use crate::windows::same_row;
use vstd::prelude::*;

verus! {

// ---- counting ------------------------------------------------------------

/// One if something has a key.
pub open spec fn has_key(thing: Option<Seq<char>>, k: Seq<char>) -> int {
    if thing == Some(k) {
        1
    } else {
        0
    }
}

/// How often a key is among others. What has no key counts for nothing.
#[verifier::opaque]
pub open spec fn count(keys: Seq<Option<Seq<char>>>, k: Seq<char>) -> int
    decreases keys.len(),
{
    if keys.len() == 0 {
        0
    } else {
        count(keys.drop_last(), k) + has_key(keys.last(), k)
    }
}

/// The keys of jokers.
pub open spec fn joker_keys(list: Seq<OwnedJoker>) -> Seq<Option<Seq<char>>> {
    Seq::new(list.len(), |i: int| Some(list[i].id.row().key@))
}

/// The keys of consumables.
pub open spec fn consumable_keys(list: Seq<OwnedConsumable>) -> Seq<Option<Seq<char>>> {
    Seq::new(list.len(), |i: int| Some(list[i].key@))
}

/// The keys of what is in the slots of a shop.
pub open spec fn item_keys(list: Seq<ShopItem>) -> Seq<Option<Seq<char>>> {
    Seq::new(list.len(), |i: int| trade::item_key(list[i].kind))
}

/// The keys of vouchers.
pub open spec fn voucher_keys(list: Seq<VoucherOffer>) -> Seq<Option<Seq<char>>> {
    Seq::new(list.len(), |i: int| Some(list[i].key@))
}

/// The keys of what is in a pack.
pub open spec fn pack_keys(list: Seq<PackItem>) -> Seq<Option<Seq<char>>> {
    Seq::new(list.len(), |i: int| trade::pack_item_key(list[i]))
}

/// How many things of a shop have a key.
pub open spec fn shop_things(shop: Option<ShopModel>, k: Seq<char>) -> int {
    match shop {
        Some(shop) => count(item_keys(shop.jokers), k) + count(voucher_keys(shop.vouchers), k),
        None => 0,
    }
}

/// How many things of a pack have a key.
pub open spec fn pack_things(pack: Option<PackModel>, k: Seq<char>) -> int {
    match pack {
        Some(pack) => count(pack_keys(pack.items), k),
        None => 0,
    }
}

/// What a count says of a key.
pub open spec fn noted(used: Map<Seq<char>, u32>, k: Seq<char>) -> int {
    if used.dom().contains(k) {
        used[k] as int
    } else {
        0
    }
}

/// By how much a count of a key is above the number of the things with it.
#[verifier::opaque]
pub open spec fn above(
    used: Map<Seq<char>, u32>,
    jokers: Seq<OwnedJoker>,
    consumables: Seq<OwnedConsumable>,
    shop: Option<ShopModel>,
    pack: Option<PackModel>,
    k: Seq<char>,
) -> int {
    noted(used, k) - count(joker_keys(jokers), k) - count(consumable_keys(consumables), k)
        - shop_things(shop, k) - pack_things(pack, k)
}

impl RunModel {
    /// How many jokers, consumables, things in the shop, vouchers on display and
    /// things in an open pack have a key.
    pub open spec fn things(self, k: Seq<char>) -> int {
        count(joker_keys(self.jokers), k) + count(consumable_keys(self.consumables), k)
            + shop_things(self.shop, k) + pack_things(self.pack, k)
    }

    /// The count of what is in use is right, as long as the numbers of cards
    /// have not run out.
    pub open spec fn accounted(self) -> bool {
        self.counters.sort_id < u32::MAX ==> forall|k: Seq<char>|
            (#[trigger] self.uses(k)) == self.things(k) && self.uses(k) <= self.counters.sort_id
    }

    #[verifier::inline]
    pub open spec fn spare(self, k: Seq<char>) -> int {
        above(self.used_keys, self.jokers, self.consumables, self.shop, self.pack, k)
    }
}

/// Whether the count of a key can be right: every thing with it is counted, and
/// each came with a number.
pub open spec fn fair(over: int, used: Map<Seq<char>, u32>, k: Seq<char>, numbers: u32) -> bool {
    over >= 0 && noted(used, k) <= numbers
}

/// Whether a shop and a pack are there where they were.
pub open spec fn same_places(a: RunModel, b: RunModel) -> bool {
    &&& (b.shop is Some) == (a.shop is Some)
    &&& (b.pack is Some) == (a.pack is Some)
}

/// Whether the counts of two runs are as right as each other.
#[verifier::opaque]
pub open spec fn settles(a: RunModel, b: RunModel) -> bool {
    &&& a.counters.sort_id <= b.counters.sort_id
    &&& b.counters.sort_id < u32::MAX ==> forall|k: Seq<char>|
        fair(a.spare(k), a.used_keys, k, a.counters.sort_id) ==> (#[trigger] b.spare(k))
            == a.spare(k) && noted(b.used_keys, k) <= b.counters.sort_id
}

/// The same, with a shop and a pack where they were.
pub open spec fn balances(a: RunModel, b: RunModel) -> bool {
    settles(a, b) && same_places(a, b)
}

/// Whether the count has become one larger than the things with a key.
#[verifier::opaque]
pub open spec fn gains(a: RunModel, b: RunModel, key: Option<Seq<char>>) -> bool {
    &&& same_places(a, b)
    &&& a.counters.sort_id <= b.counters.sort_id
    &&& b.counters.sort_id < u32::MAX ==> forall|k: Seq<char>|
        fair(a.spare(k), a.used_keys, k, a.counters.sort_id) ==> (#[trigger] b.spare(k))
            == a.spare(k) + has_key(key, k) && noted(b.used_keys, k) <= b.counters.sort_id
}

/// Whether a count that was one larger has become right for a key.
#[verifier::opaque]
pub open spec fn spends(a: RunModel, b: RunModel, key: Option<Seq<char>>) -> bool {
    &&& same_places(a, b)
    &&& a.counters.sort_id <= b.counters.sort_id
    &&& b.counters.sort_id < u32::MAX ==> forall|k: Seq<char>|
        fair(a.spare(k), a.used_keys, k, a.counters.sort_id) && a.spare(k) >= has_key(key, k) ==> (
        #[trigger] b.spare(k)) == a.spare(k) - has_key(key, k) && noted(b.used_keys, k)
            <= b.counters.sort_id
}

/// Whether nothing moved that has a key.
pub open spec fn leaves(a: RunModel, b: RunModel) -> bool {
    &&& a.counters.sort_id <= b.counters.sort_id
    &&& b.used_keys == a.used_keys
    &&& b.jokers == a.jokers
    &&& b.consumables == a.consumables
    &&& b.shop == a.shop
    &&& b.pack == a.pack
}

/// Whether a way to disable a blind keeps the count.
pub open spec fn frugal(d: spec_fn(RunModel) -> RunModel) -> bool {
    forall|m: RunModel| balances(m, #[trigger] d(m))
}

pub proof fn lemma_count_push(s: Seq<Option<Seq<char>>>, key: Option<Seq<char>>, k: Seq<char>)
    ensures
        count(s.push(key), k) == count(s, k) + has_key(key, k),
{
    reveal(count);
    assert(s.push(key).drop_last() =~= s);
}

pub proof fn lemma_count_none(k: Seq<char>)
    ensures
        count(Seq::empty(), k) == 0,
{
    reveal(count);
}

pub proof fn lemma_count_remove(s: Seq<Option<Seq<char>>>, i: int, k: Seq<char>)
    requires
        0 <= i < s.len(),
    ensures
        count(s, k) == count(s.remove(i), k) + has_key(s[i], k),
    decreases s.len(),
{
    reveal(count);
    if i == s.len() - 1 {
        assert(s.remove(i) =~= s.drop_last());
    } else {
        lemma_count_remove(s.drop_last(), i, k);
        assert(s.remove(i).drop_last() =~= s.drop_last().remove(i));
    }
}

pub proof fn lemma_joker_pushed(s: Seq<OwnedJoker>, j: OwnedJoker, k: Seq<char>)
    ensures
        count(joker_keys(s.push(j)), k) == count(joker_keys(s), k) + has_key(
            Some(j.id.row().key@),
            k,
        ),
{
    assert(joker_keys(s.push(j)) =~= joker_keys(s).push(Some(j.id.row().key@)));
    lemma_count_push(joker_keys(s), Some(j.id.row().key@), k);
}

pub proof fn lemma_joker_removed(s: Seq<OwnedJoker>, i: int, k: Seq<char>)
    requires
        0 <= i < s.len(),
    ensures
        count(joker_keys(s), k) == count(joker_keys(s.remove(i)), k) + has_key(
            Some(s[i].id.row().key@),
            k,
        ),
{
    assert(joker_keys(s.remove(i)) =~= joker_keys(s).remove(i));
    lemma_count_remove(joker_keys(s), i, k);
}

/// A row of the same jokers has the same keys.
pub proof fn lemma_same_row(a: Seq<OwnedJoker>, b: Seq<OwnedJoker>)
    requires
        same_row(a, b),
    ensures
        joker_keys(b) == joker_keys(a),
{
    assert(joker_keys(b) =~= joker_keys(a)) by {
        assert forall|i: int| 0 <= i < a.len() implies joker_keys(b)[i] == joker_keys(a)[i] by {
            assert(b[i].id == a[i].id);
        }
    }
}

/// Whether the jokers of two runs have the same keys and nothing else moved that
/// has a key.
pub open spec fn same_keys(a: RunModel, b: RunModel) -> bool {
    &&& a.counters.sort_id <= b.counters.sort_id
    &&& b.used_keys == a.used_keys
    &&& joker_keys(b.jokers) == joker_keys(a.jokers)
    &&& consumable_keys(b.consumables) == consumable_keys(a.consumables)
    &&& b.shop == a.shop
    &&& b.pack == a.pack
}

pub proof fn lemma_same_keys(a: RunModel, b: RunModel)
    requires
        same_keys(a, b),
    ensures
        balances(a, b),
{
    reveal(settles);
    assert forall|k: Seq<char>| (#[trigger] b.spare(k)) == a.spare(k) by {
        reveal(above);
    }
}

pub broadcast proof fn lemma_leaves(a: RunModel, b: RunModel)
    requires
        #[trigger] leaves(a, b),
    ensures
        balances(a, b),
{
    reveal(settles);
}

pub broadcast proof fn lemma_settles_itself(m: RunModel)
    ensures
        #[trigger] settles(m, m),
{
    reveal(settles);
}

pub broadcast proof fn lemma_settles_on(a: RunModel, b: RunModel, c: RunModel)
    requires
        #[trigger] settles(a, b),
        #[trigger] settles(b, c),
    ensures
        settles(a, c),
{
    reveal(settles);
}

pub broadcast proof fn lemma_gains_on(a: RunModel, b: RunModel, c: RunModel, key: Option<Seq<char>>)
    requires
        #[trigger] gains(a, b, key),
        #[trigger] settles(b, c),
        same_places(b, c),
    ensures
        gains(a, c, key),
{
    reveal(settles);
    reveal(gains);
}

pub broadcast proof fn lemma_settles_and_gains(
    a: RunModel,
    b: RunModel,
    c: RunModel,
    key: Option<Seq<char>>,
)
    requires
        #[trigger] settles(a, b),
        same_places(a, b),
        #[trigger] gains(b, c, key),
    ensures
        gains(a, c, key),
{
    reveal(settles);
    reveal(gains);
}

/// What is gained and then spent.
pub broadcast proof fn lemma_gained_and_spent(
    a: RunModel,
    b: RunModel,
    c: RunModel,
    key: Option<Seq<char>>,
)
    requires
        #[trigger] gains(a, b, key),
        #[trigger] spends(b, c, key),
    ensures
        balances(a, c),
{
    reveal(settles);
    reveal(gains);
    reveal(spends);
}

pub broadcast proof fn lemma_spends_on(a: RunModel, b: RunModel, c: RunModel, key: Option<Seq<char>>)
    requires
        #[trigger] spends(a, b, key),
        #[trigger] settles(b, c),
        same_places(b, c),
    ensures
        spends(a, c, key),
{
    reveal(settles);
    reveal(spends);
}

pub broadcast group group_balances {
    lemma_leaves,
    lemma_settles_itself,
    lemma_settles_on,
    lemma_gains_on,
    lemma_settles_and_gains,
    lemma_gained_and_spent,
    lemma_spends_on,
}

/// A new number and a use of a key.
pub proof fn lemma_using(m: RunModel, key: Seq<char>)
    ensures
        gains(m, m.numbered().using(key), Some(key)),
{
    reveal(gains);
    let b = m.numbered().using(key);
    assert forall|k: Seq<char>|
        b.counters.sort_id < u32::MAX && fair(
            m.spare(k),
            m.used_keys,
            k,
            m.counters.sort_id,
        ) implies (#[trigger] b.spare(k)) == m.spare(k) + has_key(Some(key), k) && noted(
        b.used_keys,
        k,
    ) <= b.counters.sort_id by {
        reveal(above);
    }
}

/// A use of a key less.
pub proof fn lemma_released(m: RunModel, key: Seq<char>)
    ensures
        spends(m, m.released(key), Some(key)),
{
    reveal(spends);
    let b = m.released(key);
    assert forall|k: Seq<char>|
        fair(m.spare(k), m.used_keys, k, m.counters.sort_id) && m.spare(k) >= has_key(
            Some(key),
            k,
        ) implies (#[trigger] b.spare(k)) == m.spare(k) - has_key(Some(key), k) && noted(
        b.used_keys,
        k,
    ) <= b.counters.sort_id by {
        lemma_things(m, k);
        reveal(above);
    }
}

pub proof fn lemma_count_nonnegative(s: Seq<Option<Seq<char>>>, k: Seq<char>)
    ensures
        count(s, k) >= 0,
    decreases s.len(),
{
    reveal(count);
    if s.len() > 0 {
        lemma_count_nonnegative(s.drop_last(), k);
    }
}

pub proof fn lemma_things(m: RunModel, k: Seq<char>)
    ensures
        m.spare(k) == m.uses(k) - m.things(k),
        m.things(k) >= 0,
{
    reveal(above);
    lemma_count_nonnegative(joker_keys(m.jokers), k);
    lemma_count_nonnegative(consumable_keys(m.consumables), k);
    if let Some(shop) = m.shop {
        lemma_count_nonnegative(item_keys(shop.jokers), k);
        lemma_count_nonnegative(voucher_keys(shop.vouchers), k);
    }
    if let Some(pack) = m.pack {
        lemma_count_nonnegative(pack_keys(pack.items), k);
    }
}

/// What comes out of a run whose count is right has its count right.
pub proof fn lemma_accounted(a: RunModel, b: RunModel)
    requires
        settles(a, b),
        a.accounted(),
    ensures
        b.accounted(),
{
    reveal(settles);
    if b.counters.sort_id < u32::MAX {
        assert forall|k: Seq<char>|
            (#[trigger] b.uses(k)) == b.things(k) && b.uses(k) <= b.counters.sort_id by {
            lemma_things(a, k);
            lemma_things(b, k);
            assert(a.uses(k) == a.things(k));
            assert(b.spare(k) == a.spare(k));
        }
    }
}

/// Whether a count has grown by the keys of a pack.
#[verifier::opaque]
pub open spec fn fills(a: RunModel, b: RunModel, list: Seq<PackItem>) -> bool {
    &&& same_places(a, b)
    &&& a.counters.sort_id <= b.counters.sort_id
    &&& b.counters.sort_id < u32::MAX ==> forall|k: Seq<char>|
        fair(a.spare(k), a.used_keys, k, a.counters.sort_id) ==> (#[trigger] b.spare(k))
            == a.spare(k) + count(pack_keys(list), k) && noted(b.used_keys, k)
            <= b.counters.sort_id
}

pub proof fn lemma_fills_nothing(m: RunModel)
    ensures
        fills(m, m, seq![]),
{
    reveal(fills);
    assert forall|k: Seq<char>| #[trigger] count(pack_keys(seq![]), k) == 0 by {
        lemma_count_none(k);
        assert(pack_keys(seq![]) =~= Seq::empty());
    }
}

pub proof fn lemma_fills_more(
    m: RunModel,
    a: RunModel,
    b: RunModel,
    list: Seq<PackItem>,
    item: PackItem,
)
    requires
        fills(m, a, list),
        gains(a, b, trade::pack_item_key(item)),
    ensures
        fills(m, b, list.push(item)),
{
    reveal(fills);
    reveal(gains);
    let key = trade::pack_item_key(item);
    assert(pack_keys(list.push(item)) =~= pack_keys(list).push(key));
    assert forall|k: Seq<char>|
        b.counters.sort_id < u32::MAX && fair(
            m.spare(k),
            m.used_keys,
            k,
            m.counters.sort_id,
        ) implies (#[trigger] b.spare(k)) == m.spare(k) + count(pack_keys(list.push(item)), k)
        && noted(b.used_keys, k) <= b.counters.sort_id by {
        lemma_count_push(pack_keys(list), key, k);
        lemma_count_nonnegative(pack_keys(list), k);
        assert(a.spare(k) == m.spare(k) + count(pack_keys(list), k));
    }
}

/// What was counted for a pack is put into it.
pub proof fn lemma_filled(
    m: RunModel,
    a: RunModel,
    c: RunModel,
    b: RunModel,
    list: Seq<PackItem>,
)
    requires
        m.pack is None,
        fills(m, a, list),
        balances(a, c),
        leaves(c, RunModel { pack: None, ..b }),
        b.pack is Some,
        b.pack->0.items == list,
    ensures
        settles(m, b),
{
    reveal(fills);
    reveal(settles);
    assert forall|k: Seq<char>|
        b.counters.sort_id < u32::MAX && fair(
            m.spare(k),
            m.used_keys,
            k,
            m.counters.sort_id,
        ) implies (#[trigger] b.spare(k)) == m.spare(k) && noted(b.used_keys, k)
        <= b.counters.sort_id by {
        lemma_count_nonnegative(pack_keys(list), k);
        assert(a.spare(k) == m.spare(k) + count(pack_keys(list), k));
        assert(c.spare(k) == a.spare(k));
        assert(b.spare(k) == c.spare(k) - count(pack_keys(list), k)) by {
            reveal(above);
        }
    }
}

pub proof fn lemma_settles_and_spends(
    a: RunModel,
    b: RunModel,
    c: RunModel,
    key: Option<Seq<char>>,
)
    requires
        settles(a, b),
        same_places(a, b),
        spends(b, c, key),
    ensures
        spends(a, c, key),
{
    reveal(settles);
    reveal(spends);
}

/// Whether a count that was larger by some keys has become right.
#[verifier::opaque]
pub open spec fn drops(a: RunModel, b: RunModel, keys: Seq<Option<Seq<char>>>) -> bool {
    &&& same_places(a, b)
    &&& a.counters.sort_id <= b.counters.sort_id
    &&& b.counters.sort_id < u32::MAX ==> forall|k: Seq<char>|
        fair(a.spare(k), a.used_keys, k, a.counters.sort_id) && a.spare(k) >= count(keys, k) ==> (
        #[trigger] b.spare(k)) == a.spare(k) - count(keys, k) && noted(b.used_keys, k)
            <= b.counters.sort_id
}

pub proof fn lemma_drops_nothing(m: RunModel)
    ensures
        drops(m, m, Seq::empty()),
{
    reveal(drops);
    assert forall|k: Seq<char>| #[trigger] count(Seq::empty(), k) == 0 by {
        lemma_count_none(k);
    }
}

pub proof fn lemma_drops_more(
    m: RunModel,
    a: RunModel,
    b: RunModel,
    c: RunModel,
    keys: Seq<Option<Seq<char>>>,
    key: Option<Seq<char>>,
)
    requires
        drops(m, a, keys),
        leaves(a, b),
        spends(b, c, key),
    ensures
        drops(m, c, keys.push(key)),
{
    reveal(drops);
    reveal(spends);
    assert forall|k: Seq<char>|
        c.counters.sort_id < u32::MAX && fair(m.spare(k), m.used_keys, k, m.counters.sort_id)
            && m.spare(k) >= count(keys.push(key), k) implies (#[trigger] c.spare(k)) == m.spare(k)
        - count(keys.push(key), k) && noted(c.used_keys, k) <= c.counters.sort_id by {
        lemma_count_push(keys, key, k);
        assert(a.spare(k) == m.spare(k) - count(keys, k));
        assert(b.spare(k) == a.spare(k));
        assert(noted(b.used_keys, k) <= b.counters.sort_id);
        assert(fair(b.spare(k), b.used_keys, k, b.counters.sort_id));
        assert(b.spare(k) >= has_key(key, k));
        assert(c.spare(k) == b.spare(k) - has_key(key, k));
    }
}

/// Things taken away, and then their keys.
pub proof fn lemma_dropped(
    m: RunModel,
    a: RunModel,
    b: RunModel,
    keys: Seq<Option<Seq<char>>>,
)
    requires
        same_places(m, a),
        a.counters == m.counters,
        a.used_keys == m.used_keys,
        forall|k: Seq<char>| (#[trigger] a.spare(k)) == m.spare(k) + count(keys, k),
        drops(a, b, keys),
    ensures
        balances(m, b),
{
    reveal(drops);
    reveal(settles);
    assert forall|k: Seq<char>|
        b.counters.sort_id < u32::MAX && fair(
            m.spare(k),
            m.used_keys,
            k,
            m.counters.sort_id,
        ) implies (#[trigger] b.spare(k)) == m.spare(k) && noted(b.used_keys, k)
        <= b.counters.sort_id by {
        lemma_count_nonnegative(keys, k);
        assert(a.spare(k) == m.spare(k) + count(keys, k));
        assert(fair(a.spare(k), a.used_keys, k, a.counters.sort_id));
        assert(b.spare(k) == a.spare(k) - count(keys, k));
    }
}

/// A consumable that was counted joins the others.
pub proof fn lemma_consumable_kept(a: RunModel, b: RunModel, c: OwnedConsumable)
    requires
        b == (RunModel { consumables: a.consumables.push(c), limits: b.limits, ..a }),
    ensures
        spends(a, b, Some(c.key@)),
{
    reveal(spends);
    reveal(above);
    assert(consumable_keys(b.consumables) =~= consumable_keys(a.consumables).push(Some(c.key@)));
    assert forall|k: Seq<char>|
        (#[trigger] b.spare(k)) == a.spare(k) - has_key(Some(c.key@), k) by {
        lemma_count_push(consumable_keys(a.consumables), Some(c.key@), k);
    }
}

/// A joker that was counted joins the others.
pub proof fn lemma_joker_kept(a: RunModel, b: RunModel, j: OwnedJoker)
    requires
        b == (RunModel { jokers: a.jokers.push(j), ..a }),
    ensures
        spends(a, b, Some(j.id.row().key@)),
{
    reveal(spends);
    assert forall|k: Seq<char>|
        (#[trigger] b.spare(k)) == a.spare(k) - has_key(Some(j.id.row().key@), k) by {
        reveal(above);
        lemma_joker_pushed(a.jokers, j, k);
    }
}

/// A use of a key less, if there is one.
pub proof fn lemma_released_if(m: RunModel, key: Option<Seq<char>>)
    ensures
        spends(m, m.released_if(key), key),
{
    match key {
        Some(k) => {
            lemma_released(m, k);
        },
        None => {
            reveal(spends);
        },
    }
}

/// What has no key changes no count.
pub proof fn lemma_gains_nothing(a: RunModel, b: RunModel)
    requires
        leaves(a, b),
    ensures
        gains(a, b, None),
{
    reveal(gains);
}

/// Something that was counted is shown in the shop.
pub proof fn lemma_item_shown(m: RunModel, item: ShopItem)
    requires
        m.shop is Some,
    ensures
        spends(m, m.with_item(item), trade::item_key(item.kind)),
{
    reveal(spends);
    let key = trade::item_key(item.kind);
    let shop = m.shop->0;
    let b = m.with_item(item);
    assert(item_keys(shop.jokers.push(item)) =~= item_keys(shop.jokers).push(key));
    assert forall|k: Seq<char>| (#[trigger] b.spare(k)) == m.spare(k) - has_key(key, k) by {
        reveal(above);
        lemma_count_push(item_keys(shop.jokers), key, k);
    }
}

/// A shop with nothing in it.
pub proof fn lemma_empty_shop(m: RunModel, b: RunModel)
    requires
        m.shop is None,
        b == (RunModel { shop: Some(ShopModel::empty()), ..m }),
    ensures
        settles(m, b),
{
    reveal(settles);
    assert forall|k: Seq<char>| (#[trigger] b.spare(k)) == m.spare(k) by {
        reveal(above);
        lemma_count_none(k);
        assert(item_keys(ShopModel::empty().jokers) =~= Seq::empty());
        assert(voucher_keys(ShopModel::empty().vouchers) =~= Seq::empty());
    }
}

/// A shop goes, and the keys of what was in it.
pub proof fn lemma_shop_gone(m: RunModel, a: RunModel, b: RunModel, c: RunModel)
    requires
        m.shop is Some,
        a == (RunModel { shop: None, ..m }),
        drops(a, b, item_keys(m.shop->0.jokers)),
        drops(b, c, voucher_keys(m.shop->0.vouchers)),
    ensures
        settles(m, c),
        (c.pack is Some) == (m.pack is Some),
{
    reveal(drops);
    reveal(settles);
    let items = item_keys(m.shop->0.jokers);
    let list = voucher_keys(m.shop->0.vouchers);
    assert forall|k: Seq<char>|
        c.counters.sort_id < u32::MAX && fair(
            m.spare(k),
            m.used_keys,
            k,
            m.counters.sort_id,
        ) implies (#[trigger] c.spare(k)) == m.spare(k) && noted(c.used_keys, k)
        <= c.counters.sort_id by {
        lemma_count_nonnegative(items, k);
        lemma_count_nonnegative(list, k);
        assert(a.spare(k) == m.spare(k) + count(items, k) + count(list, k)) by {
            reveal(above);
        }
        assert(fair(a.spare(k), a.used_keys, k, a.counters.sort_id));
        assert(b.spare(k) == a.spare(k) - count(items, k));
        assert(fair(b.spare(k), b.used_keys, k, b.counters.sort_id));
        assert(c.spare(k) == b.spare(k) - count(list, k));
    }
}

pub proof fn lemma_gained_nothing(a: RunModel, b: RunModel)
    requires
        gains(a, b, None),
    ensures
        balances(a, b),
{
    lemma_released_if(b, None);
    lemma_gained_and_spent(a, b, b, None);
}

/// Something leaves the shop and is still counted.
pub proof fn lemma_item_taken(m: RunModel, slot: nat)
    requires
        m.shop is Some,
        slot < m.shop->0.jokers.len(),
    ensures
        gains(m, m.without_item(slot), trade::item_key(m.shop->0.jokers[slot as int].kind)),
{
    reveal(gains);
    let list = m.shop->0.jokers;
    let key = trade::item_key(list[slot as int].kind);
    let b = m.without_item(slot);
    assert(item_keys(list.remove(slot as int)) =~= item_keys(list).remove(slot as int));
    assert forall|k: Seq<char>| (#[trigger] b.spare(k)) == m.spare(k) + has_key(key, k) by {
        reveal(above);
        lemma_count_remove(item_keys(list), slot as int, k);
    }
}

/// A voucher leaves the shop and is still counted.
pub proof fn lemma_voucher_taken(m: RunModel, b: RunModel, slot: nat)
    requires
        m.shop is Some,
        b.shop is Some,
        slot < m.shop->0.vouchers.len(),
        b.shop->0.vouchers == m.shop->0.vouchers.remove(slot as int),
        b.shop->0.jokers == m.shop->0.jokers,
        leaves(m, RunModel { shop: m.shop, ..b }),
    ensures
        gains(m, b, Some(m.shop->0.vouchers[slot as int].key@)),
{
    reveal(gains);
    let list = m.shop->0.vouchers;
    let key = Some(list[slot as int].key@);
    assert(voucher_keys(list.remove(slot as int)) =~= voucher_keys(list).remove(slot as int));
    assert forall|k: Seq<char>| (#[trigger] b.spare(k)) == m.spare(k) + has_key(key, k) by {
        reveal(above);
        lemma_count_remove(voucher_keys(list), slot as int, k);
    }
}

/// Something leaves a pack and is still counted.
pub proof fn lemma_pack_item_taken(m: RunModel, idx: nat)
    requires
        m.pack is Some,
        idx < m.pack->0.items.len(),
    ensures
        gains(m, m.without_pack_item(idx), trade::pack_item_key(m.pack->0.items[idx as int])),
{
    reveal(gains);
    let list = m.pack->0.items;
    let key = trade::pack_item_key(list[idx as int]);
    let b = m.without_pack_item(idx);
    assert(pack_keys(list.remove(idx as int)) =~= pack_keys(list).remove(idx as int));
    assert forall|k: Seq<char>| (#[trigger] b.spare(k)) == m.spare(k) + has_key(key, k) by {
        reveal(above);
        lemma_count_remove(pack_keys(list), idx as int, k);
    }
}

/// A pack goes, and the keys of what was in it.
pub proof fn lemma_pack_gone(m: RunModel, a: RunModel, b: RunModel)
    requires
        m.pack is Some,
        a == (RunModel { pack: None, ..m }),
        drops(a, b, pack_keys(m.pack->0.items)),
    ensures
        settles(m, b),
        b.pack is None,
{
    reveal(drops);
    reveal(settles);
    let keys = pack_keys(m.pack->0.items);
    assert forall|k: Seq<char>|
        b.counters.sort_id < u32::MAX && fair(
            m.spare(k),
            m.used_keys,
            k,
            m.counters.sort_id,
        ) implies (#[trigger] b.spare(k)) == m.spare(k) && noted(b.used_keys, k)
        <= b.counters.sort_id by {
        lemma_count_nonnegative(keys, k);
        assert(a.spare(k) == m.spare(k) + count(keys, k)) by {
            reveal(above);
        }
        assert(fair(a.spare(k), a.used_keys, k, a.counters.sort_id));
        assert(b.spare(k) == a.spare(k) - count(keys, k));
    }
}

/// A pack with the same things in it.
pub proof fn lemma_same_pack(m: RunModel, b: RunModel)
    requires
        m.pack is Some,
        b.pack is Some,
        b.pack->0.items == m.pack->0.items,
        leaves(m, RunModel { pack: m.pack, ..b }),
    ensures
        settles(m, b),
{
    reveal(settles);
    assert forall|k: Seq<char>| (#[trigger] b.spare(k)) == m.spare(k) by {
        reveal(above);
    }
}

} // verus!
