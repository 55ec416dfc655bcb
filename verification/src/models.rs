use vstd::prelude::*;
use crate::decimal::Px;

verus! {

/// One instrument's latest best bid/offer state, the one canonical
/// shape every exchange's message is projected into. Prices and sizes
/// are exact decimals; both timestamps are integer milliseconds since
/// the epoch. `localTimestamp >= timestamp` is expected but never
/// enforced: clock skew across exchanges must not break the pipeline.
#[allow(non_snake_case)]
#[derive(Clone, Copy, Debug, PartialEq, Eq, Structural)]
pub struct QuoteEntry {
    pub bestBid: Px,
    pub bestBidAmount: Px,
    pub bestAsk: Px,
    pub bestAskAmount: Px,
    pub timestamp: i64,
    pub localTimestamp: i64,
}

/// The placeholder every tracked instrument is seeded with, so that a
/// reader never observes a missing key.
pub open spec fn zero_entry() -> QuoteEntry {
    QuoteEntry {
        bestBid: Px { mantissa: 0, scale: 0 },
        bestBidAmount: Px { mantissa: 0, scale: 0 },
        bestAsk: Px { mantissa: 0, scale: 0 },
        bestAskAmount: Px { mantissa: 0, scale: 0 },
        timestamp: 0,
        localTimestamp: 0,
    }
}

impl QuoteEntry {
    pub fn zero() -> (r: QuoteEntry)
        ensures
            r == zero_entry(),
    {
        QuoteEntry {
            bestBid: Px::zero(),
            bestBidAmount: Px::zero(),
            bestAsk: Px::zero(),
            bestAskAmount: Px::zero(),
            timestamp: 0,
            localTimestamp: 0,
        }
    }
}

/// A message the pipeline could not adapt. It is dropped after being
/// reported; one bad message never silences a feed.
#[derive(Debug)]
pub struct ParseError {
    /// The raw payload that failed to parse.
    pub payload: String,
}

/// A single offer level: price and size, both string-encoded on the
/// wire.
#[derive(Clone, Copy, Debug, PartialEq, Eq, Structural)]
pub struct OfferData {
    pub price: Px,
    pub size: Px,
}

/// Exchange A (Binance) book-ticker payload: prices and sizes arrive
/// as quoted strings, the event time as integer milliseconds.
#[allow(non_snake_case)]
#[derive(Debug)]
pub struct BinanceDepthStreamData {
    pub s: String,
    pub b: String,
    pub a: String,
    pub B: String,
    pub A: String,
    pub E: i64,
}

/// Exchange A trade payload, kept in the exchange's own shape.
#[allow(non_snake_case)]
#[derive(Debug)]
pub struct BinanceTradeStreamData {
    pub s: String,
    pub E: i64,
    pub p: String,
    pub q: String,
    pub e: String,
}

/// Exchange B (FTX) ticker payload: prices, sizes and the time arrive
/// as bare JSON numbers; the time counts fractional seconds.
#[allow(non_snake_case)]
#[derive(Clone, Copy, Debug, PartialEq, Eq, Structural)]
pub struct FTXStreamData {
    pub bid: Px,
    pub ask: Px,
    pub bidSize: Px,
    pub askSize: Px,
    pub time: Px,
}

/// Exchange C (Deribit) ticker payload: one level deeper than the
/// others, with the event time as integer milliseconds.
#[derive(Debug)]
pub struct DeribitData {
    pub timestamp: i64,
    pub instrument_name: String,
    pub best_bid_price: Px,
    pub best_bid_amount: Px,
    pub best_ask_price: Px,
    pub best_ask_amount: Px,
}

#[derive(Debug)]
pub struct DeribitStreamData {
    pub channel: String,
    pub data: DeribitData,
}

#[derive(Debug)]
pub struct BinanceDepthStreamWrapper {
    pub stream: String,
    pub data: BinanceDepthStreamData,
}

/// Exchange B ticker fields as the exact texts of the wire's JSON
/// numbers, before those texts are parsed into decimals.
#[derive(Debug)]
pub struct FtxWire {
    pub market: String,
    pub bid: String,
    pub ask: String,
    pub bid_size: String,
    pub ask_size: String,
    pub time: String,
}

/// Exchange C ticker fields as the exact texts of the wire's JSON
/// numbers, before those texts are parsed into decimals.
#[derive(Debug)]
pub struct DeribitWire {
    pub channel: String,
    pub instrument_name: String,
    pub timestamp: i64,
    pub best_bid_price: String,
    pub best_bid_amount: String,
    pub best_ask_price: String,
    pub best_ask_amount: String,
}

#[derive(Debug)]
pub struct FTXStreamWrapper {
    pub market: String,
    pub data: FTXStreamData,
}

#[derive(Debug)]
pub struct DeribitStreamWrapper {
    pub params: DeribitStreamData,
}

} // verus!
