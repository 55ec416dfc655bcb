use vstd::prelude::*;
use crate::decimal::{parse_px, px_millis, px_of, px_parses, px_event_millis};
use crate::json::{
    binance_wire, binance_wire_of, deribit_wire, deribit_wire_of, ftx_wire, ftx_wire_of,
};
use crate::models::{
    BinanceDepthStreamData, BinanceDepthStreamWrapper, DeribitData, DeribitStreamData,
    DeribitStreamWrapper, DeribitWire, FTXStreamData, FTXStreamWrapper, FtxWire, QuoteEntry,
};

verus! {

/// Deserialize one exchange A message into its native shape: a
/// wrapper object with the stream tag and a data object whose price
/// and size fields are quoted strings and whose event time is
/// integer milliseconds. Succeeds exactly when the text is one JSON
/// document of that shape; any missing or differently-typed field is
/// a parse failure.
pub fn parse_binance_message(msg: &str) -> (r: Option<BinanceDepthStreamWrapper>)
    ensures
        r == binance_wire_of(msg@),
{
    binance_wire(msg)
}

/// Whether every numeric text of an exchange B payload is a decimal
/// numeral whose exact value fits.
pub open spec fn ftx_wire_parses(w: FtxWire) -> bool {
    &&& px_parses(w.bid@)
    &&& px_parses(w.ask@)
    &&& px_parses(w.bid_size@)
    &&& px_parses(w.ask_size@)
    &&& px_parses(w.time@)
}

/// The exchange B payload with its number texts parsed into exact
/// decimals.
pub open spec fn ftx_data_of(w: FtxWire) -> FTXStreamData {
    FTXStreamData {
        bid: px_of(w.bid@),
        ask: px_of(w.ask@),
        bidSize: px_of(w.bid_size@),
        askSize: px_of(w.ask_size@),
        time: px_of(w.time@),
    }
}

/// Deserialize one exchange B message into its native shape: a
/// wrapper with the market name and a data object whose prices,
/// sizes and time arrive as bare JSON numbers, the time counting
/// fractional seconds. Succeeds exactly when the text is one JSON
/// document of that shape and every number is a fitting decimal
/// numeral.
pub fn parse_ftx_message(msg: &str) -> (r: Option<FTXStreamWrapper>)
    ensures
        r == match ftx_wire_of(msg@) {
            Some(w) => if ftx_wire_parses(w) {
                Some(FTXStreamWrapper { market: w.market, data: ftx_data_of(w) })
            } else {
                None::<FTXStreamWrapper>
            },
            None => None::<FTXStreamWrapper>,
        },
{
    let w = match ftx_wire(msg) {
        Some(w) => w,
        None => {
            return None;
        },
    };
    let bid = match parse_px(w.bid.as_str()) {
        Some(x) => x,
        None => {
            return None;
        },
    };
    let ask = match parse_px(w.ask.as_str()) {
        Some(x) => x,
        None => {
            return None;
        },
    };
    let bid_size = match parse_px(w.bid_size.as_str()) {
        Some(x) => x,
        None => {
            return None;
        },
    };
    let ask_size = match parse_px(w.ask_size.as_str()) {
        Some(x) => x,
        None => {
            return None;
        },
    };
    let time = match parse_px(w.time.as_str()) {
        Some(x) => x,
        None => {
            return None;
        },
    };
    Some(
        FTXStreamWrapper {
            market: w.market,
            data: FTXStreamData { bid, ask, bidSize: bid_size, askSize: ask_size, time },
        },
    )
}

/// Whether every numeric text of an exchange C payload is a decimal
/// numeral whose exact value fits.
pub open spec fn deribit_wire_parses(w: DeribitWire) -> bool {
    &&& px_parses(w.best_bid_price@)
    &&& px_parses(w.best_bid_amount@)
    &&& px_parses(w.best_ask_price@)
    &&& px_parses(w.best_ask_amount@)
}

/// The exchange C payload with its number texts parsed into exact
/// decimals.
pub open spec fn deribit_data_of(w: DeribitWire) -> DeribitData {
    DeribitData {
        timestamp: w.timestamp,
        instrument_name: w.instrument_name,
        best_bid_price: px_of(w.best_bid_price@),
        best_bid_amount: px_of(w.best_bid_amount@),
        best_ask_price: px_of(w.best_ask_price@),
        best_ask_amount: px_of(w.best_ask_amount@),
    }
}

/// Deserialize one exchange C message into its native shape: a
/// params object one level down, holding the channel tag and a data
/// object whose event time is integer milliseconds. Succeeds exactly
/// when the text is one JSON document of that shape and every number
/// is a fitting decimal numeral.
pub fn parse_deribit_message(msg: &str) -> (r: Option<DeribitStreamWrapper>)
    ensures
        r == match deribit_wire_of(msg@) {
            Some(w) => if deribit_wire_parses(w) {
                Some(
                    DeribitStreamWrapper {
                        params: DeribitStreamData { channel: w.channel, data: deribit_data_of(w) },
                    },
                )
            } else {
                None::<DeribitStreamWrapper>
            },
            None => None::<DeribitStreamWrapper>,
        },
{
    let w = match deribit_wire(msg) {
        Some(w) => w,
        None => {
            return None;
        },
    };
    let best_bid_price = match parse_px(w.best_bid_price.as_str()) {
        Some(x) => x,
        None => {
            return None;
        },
    };
    let best_bid_amount = match parse_px(w.best_bid_amount.as_str()) {
        Some(x) => x,
        None => {
            return None;
        },
    };
    let best_ask_price = match parse_px(w.best_ask_price.as_str()) {
        Some(x) => x,
        None => {
            return None;
        },
    };
    let best_ask_amount = match parse_px(w.best_ask_amount.as_str()) {
        Some(x) => x,
        None => {
            return None;
        },
    };
    Some(
        DeribitStreamWrapper {
            params: DeribitStreamData {
                channel: w.channel,
                data: DeribitData {
                    timestamp: w.timestamp,
                    instrument_name: w.instrument_name,
                    best_bid_price,
                    best_bid_amount,
                    best_ask_price,
                    best_ask_amount,
                },
            },
        },
    )
}

/// Project an exchange A payload onto the canonical record: parse
/// the four string-encoded decimals; the event time is already
/// integer milliseconds. Succeeds exactly when all four parse and
/// fit.
pub fn quote_from_binance(d: &BinanceDepthStreamData, local_ts: i64) -> (r: Option<QuoteEntry>)
    ensures
        r == if px_parses(d.b@) && px_parses(d.B@) && px_parses(d.a@) && px_parses(d.A@) {
            Some(
                QuoteEntry {
                    bestBid: px_of(d.b@),
                    bestBidAmount: px_of(d.B@),
                    bestAsk: px_of(d.a@),
                    bestAskAmount: px_of(d.A@),
                    timestamp: d.E,
                    localTimestamp: local_ts,
                },
            )
        } else {
            None::<QuoteEntry>
        },
{
    let best_bid = match parse_px(d.b.as_str()) {
        Some(x) => x,
        None => {
            return None;
        },
    };
    let bid_amount = match parse_px(d.B.as_str()) {
        Some(x) => x,
        None => {
            return None;
        },
    };
    let best_ask = match parse_px(d.a.as_str()) {
        Some(x) => x,
        None => {
            return None;
        },
    };
    let ask_amount = match parse_px(d.A.as_str()) {
        Some(x) => x,
        None => {
            return None;
        },
    };
    Some(
        QuoteEntry {
            bestBid: best_bid,
            bestBidAmount: bid_amount,
            bestAsk: best_ask,
            bestAskAmount: ask_amount,
            timestamp: d.E,
            localTimestamp: local_ts,
        },
    )
}

/// Project an exchange B payload onto the canonical record: prices
/// and sizes carry over exactly; the fractional-second time becomes
/// integer milliseconds, rounded to the nearest. Succeeds exactly
/// when the converted time fits.
pub fn quote_from_ftx(d: &FTXStreamData, local_ts: i64) -> (r: Option<QuoteEntry>)
    ensures
        ({
            let ms = px_millis(d.time.mantissa as int, d.time.scale as nat);
            r == if i64::MIN <= ms && ms <= i64::MAX {
                Some(
                    QuoteEntry {
                        bestBid: d.bid,
                        bestBidAmount: d.bidSize,
                        bestAsk: d.ask,
                        bestAskAmount: d.askSize,
                        timestamp: ms as i64,
                        localTimestamp: local_ts,
                    },
                )
            } else {
                None::<QuoteEntry>
            }
        }),
{
    let ms = match px_event_millis(d.time) {
        Some(x) => x,
        None => {
            return None;
        },
    };
    Some(
        QuoteEntry {
            bestBid: d.bid,
            bestBidAmount: d.bidSize,
            bestAsk: d.ask,
            bestAskAmount: d.askSize,
            timestamp: ms,
            localTimestamp: local_ts,
        },
    )
}

/// Project an exchange C payload onto the canonical record: every
/// field carries over exactly; never fails.
pub fn quote_from_deribit(d: &DeribitData, local_ts: i64) -> (r: QuoteEntry)
    ensures
        r == (QuoteEntry {
            bestBid: d.best_bid_price,
            bestBidAmount: d.best_bid_amount,
            bestAsk: d.best_ask_price,
            bestAskAmount: d.best_ask_amount,
            timestamp: d.timestamp,
            localTimestamp: local_ts,
        }),
{
    QuoteEntry {
        bestBid: d.best_bid_price,
        bestBidAmount: d.best_bid_amount,
        bestAsk: d.best_ask_price,
        bestAskAmount: d.best_ask_amount,
        timestamp: d.timestamp,
        localTimestamp: local_ts,
    }
}

} // verus!
