//! The shop, booster packs, tags and what a run owns.
use crate::cards::{Card, Edition, HandType};
use crate::items;
use crate::items::{JokerId, PackKind};
use crate::jokers::JokerState;
use crate::registry::Key;
use vstd::prelude::*;

verus! {

/// A joker that is owned or on offer.
#[derive(Debug, Clone, Copy, PartialEq)]
pub struct OwnedJoker {
    pub id: JokerId,
    pub edition: Edition,
    pub sort_id: u32,
    /// Raises what it sells for.
    pub extra_value: i64,
    /// Switched off for the time being.
    pub debuffed: bool,
    /// Face down; says nothing of what it does.
    pub flipped: bool,
    pub eternal: bool,
    /// How many hands had been played when it was made.
    pub hands_at_create: i64,
    pub state: JokerState,
}

/// A consumable that is held or on offer.
#[derive(Debug, Clone, Copy, PartialEq, Eq)]
pub struct OwnedConsumable {
    pub key: Key,
    pub sort_id: u32,
    /// Takes no room.
    pub negative: bool,
    /// Raises what it sells for.
    pub extra_value: i64,
}

/// What lies in a slot of the shop.
#[derive(Debug, Clone, Copy, PartialEq)]
pub enum ShopItemKind {
    Joker(OwnedJoker),
    Consumable(OwnedConsumable),
    PlayingCard(Card),
}

/// A slot of the shop.
#[derive(Debug, Clone, Copy, PartialEq)]
pub struct ShopItem {
    pub kind: ShopItemKind,
    /// Free of charge.
    pub couponed: bool,
}

impl ShopItem {
    pub open spec fn consumable(self) -> bool {
        self.kind is Consumable
    }

    /// What it costs without its edition and any discount.
    pub open spec fn plain_cost(self) -> i64 {
        match self.kind {
            ShopItemKind::Joker(j) => j.id.row().cost,
            ShopItemKind::Consumable(c) => items::base_cost_of(c.key@),
            ShopItemKind::PlayingCard(_) => 1,
        }
    }

    pub open spec fn finish(self) -> Edition {
        match self.kind {
            ShopItemKind::Joker(j) => j.edition,
            ShopItemKind::Consumable(_) => Edition::Plain,
            ShopItemKind::PlayingCard(c) => c.edition,
        }
    }

    /// Whether a consumable lies here.
    pub fn is_consumable(&self) -> (r: bool)
        ensures
            r == self.consumable(),
    {
        match self.kind {
            ShopItemKind::Consumable(_) => true,
            _ => false,
        }
    }

    /// What it costs without its edition and any discount.
    pub fn base_cost(&self) -> (r: i64)
        ensures
            r == self.plain_cost(),
    {
        match self.kind {
            ShopItemKind::Joker(j) => j.id.meta().cost,
            ShopItemKind::Consumable(c) => items::center_base_cost(c.key),
            ShopItemKind::PlayingCard(_) => 1,
        }
    }

    pub(crate) fn edition(&self) -> (r: Edition)
        ensures
            r == self.finish(),
    {
        match self.kind {
            ShopItemKind::Joker(j) => j.edition,
            ShopItemKind::Consumable(_) => Edition::Plain,
            ShopItemKind::PlayingCard(c) => c.edition,
        }
    }
}

/// A voucher on offer.
#[derive(Debug, Clone, Copy, PartialEq, Eq)]
pub struct VoucherOffer {
    pub key: Key,
    pub sort_id: u32,
    /// The voucher of the ante, not one of a tag.
    pub shop_voucher: bool,
}

/// A booster pack on offer.
#[derive(Debug, Clone, Copy, PartialEq, Eq)]
pub struct PackOffer {
    pub key: Key,
    pub sort_id: u32,
    pub used: bool,
    /// Free of charge.
    pub couponed: bool,
}

/// An open shop.
#[derive(Debug, Clone, PartialEq)]
pub struct ShopState {
    pub jokers: Vec<ShopItem>,
    pub vouchers: Vec<VoucherOffer>,
    pub packs: Vec<PackOffer>,
}

/// The contents of a shop.
#[verifier::ext_equal]
pub struct ShopModel {
    pub jokers: Seq<ShopItem>,
    pub vouchers: Seq<VoucherOffer>,
    pub packs: Seq<PackOffer>,
}

impl View for ShopState {
    type V = ShopModel;

    open spec fn view(&self) -> ShopModel {
        ShopModel { jokers: self.jokers@, vouchers: self.vouchers@, packs: self.packs@ }
    }
}

impl ShopModel {
    /// A shop with nothing in it.
    pub open spec fn empty() -> ShopModel {
        ShopModel { jokers: seq![], vouchers: seq![], packs: seq![] }
    }
}

impl Default for ShopState {
    fn default() -> (r: Self)
        ensures
            r@ == ShopModel::empty(),
    {
        let r = ShopState { jokers: Vec::new(), vouchers: Vec::new(), packs: Vec::new() };
        assert(r@ =~= ShopModel::empty());
        r
    }
}

/// A card in a booster pack.
#[derive(Debug, Clone, Copy, PartialEq)]
pub enum PackItem {
    Joker(OwnedJoker),
    Consumable(OwnedConsumable),
    PlayingCard(Card),
}

/// Where a run goes on when a pack closes.
#[derive(Debug, Clone, Copy, PartialEq, Eq, Structural)]
pub enum PackReturn {
    Shop,
    BlindSelect,
}

/// An open booster pack.
#[derive(Debug, Clone, PartialEq)]
pub struct PackState {
    pub key: Key,
    pub kind: PackKind,
    /// How many more cards may be taken.
    pub choices_left: u8,
    pub items: Vec<PackItem>,
    pub return_to: PackReturn,
    /// A hand was dealt to choose targets from.
    pub hand_dealt: bool,
}

/// The contents of an open pack.
#[verifier::ext_equal]
pub struct PackModel {
    pub key: Key,
    pub kind: PackKind,
    pub choices_left: u8,
    pub items: Seq<PackItem>,
    pub return_to: PackReturn,
    pub hand_dealt: bool,
}

impl View for PackState {
    type V = PackModel;

    open spec fn view(&self) -> PackModel {
        PackModel {
            key: self.key,
            kind: self.kind,
            choices_left: self.choices_left,
            items: self.items@,
            return_to: self.return_to,
            hand_dealt: self.hand_dealt,
        }
    }
}

/// A tag that is held.
#[derive(Debug, Clone, Copy, PartialEq, Eq)]
pub struct RunTag {
    pub key: Key,
    /// The hand of an Orbital Tag.
    pub orbital_hand: Option<HandType>,
}

/// The moments at which tags act.
#[derive(Debug, Clone, Copy, PartialEq, Eq, Structural)]
pub enum TagContext {
    /// At blind select, and after a skip.
    Immediate,
    /// When a round starts.
    RoundStartBonus,
    /// When a shop opens.
    ShopStart,
    /// When the vouchers of a shop are laid out.
    VoucherAdd,
    /// When everything in a shop is laid out.
    ShopFinalPass,
}

/// Where a joker comes up, which decides the poll for its stickers.
#[derive(Debug, Clone, Copy, PartialEq, Eq, Structural)]
pub enum JokerArea {
    Shop,
    Pack,
    /// Straight to the owned jokers.
    Direct,
}

} // verus!
