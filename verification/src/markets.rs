//! Markets: the cards they sell and at what price.
use vstd::prelude::*;

use crate::cards::CardId;

verus! {

/// The index of a market in the market directory.
#[derive(Debug, Clone, Copy, PartialEq, Eq, Structural, PartialOrd, Ord, Hash)]
pub struct MarketId(pub u32);

#[derive(Debug, Clone, Copy, PartialEq, Eq, Structural)]
pub struct CardPrice(pub u32);

/// The three cards a market sells, each with its price.
#[derive(Debug, Clone, Copy, PartialEq, Eq)]
pub struct LogicalMarket(pub [(CardId, CardPrice); 3]);

#[derive(Debug, Clone, Copy, PartialEq, Eq, Structural)]
pub enum SlotInMarket {
    First,
    Second,
    Third,
}

/// The position of a slot in a market's array of wares.
pub open spec fn slot_index(slot: SlotInMarket) -> int {
    match slot {
        SlotInMarket::First => 0,
        SlotInMarket::Second => 1,
        SlotInMarket::Third => 2,
    }
}

/// Tried to retrieve market data using an invalid MarketId.
#[derive(Debug, Clone, Copy, PartialEq, Eq, Structural)]
pub struct InvaildIDErr(pub MarketId);

/// All markets of a game, indexed by `MarketId`.
#[derive(Debug)]
pub struct MarketDirectory(pub Vec<LogicalMarket>);

impl MarketDirectory {
    pub fn get_market(&self, id: MarketId) -> (r: Result<&LogicalMarket, InvaildIDErr>)
        ensures
            id.0 < self.0@.len() ==> r == Ok::<&LogicalMarket, InvaildIDErr>(
                &self.0@[id.0 as int],
            ),
            id.0 >= self.0@.len() ==> r == Err::<&LogicalMarket, InvaildIDErr>(InvaildIDErr(id)),
    {
        if (id.0 as usize) < self.0.len() {
            Ok(&self.0[id.0 as usize])
        } else {
            Err(InvaildIDErr(id))
        }
    }

    pub fn new(markets: Vec<LogicalMarket>) -> (r: Self)
        ensures
            r.0@ == markets@,
    {
        Self(markets)
    }
}

impl LogicalMarket {
    /// The card sold in `slot`, with its price.
    pub fn get_card_and_price(&self, slot: SlotInMarket) -> (r: &(CardId, CardPrice))
        ensures
            *r == self.0[slot_index(slot)],
    {
        match slot {
            SlotInMarket::First => &self.0[0],
            SlotInMarket::Second => &self.0[1],
            SlotInMarket::Third => &self.0[2],
        }
    }
}

} // verus!
