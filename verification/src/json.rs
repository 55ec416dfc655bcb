use vstd::prelude::*;
use crate::models::{BinanceDepthStreamData, BinanceDepthStreamWrapper, DeribitWire, FtxWire};

verus! {

/// The exchange A message that serde_json reads out of the text, if
/// the text is one JSON document of that shape: an object with a
/// `"stream"` string and a `"data"` object holding the five strings
/// and the integer millisecond event time. Deserialization is a
/// function of the text alone, so the result carries a name.
pub uninterp spec fn binance_wire_of(s: Seq<char>) -> Option<BinanceDepthStreamWrapper>;

/// Relies on serde_json::from_str::<Value>, Value::get, Value::as_str
/// and Value::as_i64: the exchange A extraction, whose result is
/// named by [`binance_wire_of`]. Succeeds exactly when the text is a
/// document of that shape, and then hands every field over
/// unchanged.
#[verifier::external_body]
pub(crate) fn binance_wire(msg: &str) -> (r: Option<BinanceDepthStreamWrapper>)
    ensures
        r == binance_wire_of(msg@),
{
    let v: serde_json::Value = serde_json::from_str(msg).ok()?;
    let d = v.get("data")?;
    Some(BinanceDepthStreamWrapper {
        stream: v.get("stream")?.as_str()?.to_owned(),
        data: BinanceDepthStreamData {
            s: d.get("s")?.as_str()?.to_owned(),
            b: d.get("b")?.as_str()?.to_owned(),
            a: d.get("a")?.as_str()?.to_owned(),
            B: d.get("B")?.as_str()?.to_owned(),
            A: d.get("A")?.as_str()?.to_owned(),
            E: d.get("E")?.as_i64()?,
        },
    })
}

/// The exchange B message that serde_json reads out of the text, if
/// the text is one JSON document of that shape: an object with a
/// `"market"` string and a `"data"` object whose five fields are
/// JSON numbers, kept as their exact literal texts.
pub uninterp spec fn ftx_wire_of(s: Seq<char>) -> Option<FtxWire>;

/// Relies on serde_json::from_str::<Value>, Value::get, Value::as_str,
/// Value::as_number and Number's Display (the build keeps numbers as
/// their literal text): the exchange B extraction, whose result is
/// named by [`ftx_wire_of`].
#[verifier::external_body]
pub(crate) fn ftx_wire(msg: &str) -> (r: Option<FtxWire>)
    ensures
        r == ftx_wire_of(msg@),
{
    let v: serde_json::Value = serde_json::from_str(msg).ok()?;
    let d = v.get("data")?;
    Some(FtxWire {
        market: v.get("market")?.as_str()?.to_owned(),
        bid: d.get("bid")?.as_number()?.to_string(),
        ask: d.get("ask")?.as_number()?.to_string(),
        bid_size: d.get("bidSize")?.as_number()?.to_string(),
        ask_size: d.get("askSize")?.as_number()?.to_string(),
        time: d.get("time")?.as_number()?.to_string(),
    })
}

/// The exchange C message that serde_json reads out of the text, if
/// the text is one JSON document of that shape: a `"params"` object
/// holding the channel tag and a `"data"` object whose price and
/// size fields are JSON numbers, kept as their exact literal texts,
/// and whose event time is an integer.
pub uninterp spec fn deribit_wire_of(s: Seq<char>) -> Option<DeribitWire>;

/// Relies on serde_json::from_str::<Value>, Value::get, Value::as_str,
/// Value::as_i64, Value::as_number and Number's Display: the exchange
/// C extraction, whose result is named by [`deribit_wire_of`].
#[verifier::external_body]
pub(crate) fn deribit_wire(msg: &str) -> (r: Option<DeribitWire>)
    ensures
        r == deribit_wire_of(msg@),
{
    let v: serde_json::Value = serde_json::from_str(msg).ok()?;
    let p = v.get("params")?;
    let d = p.get("data")?;
    Some(DeribitWire {
        channel: p.get("channel")?.as_str()?.to_owned(),
        instrument_name: d.get("instrument_name")?.as_str()?.to_owned(),
        timestamp: d.get("timestamp")?.as_i64()?,
        best_bid_price: d.get("best_bid_price")?.as_number()?.to_string(),
        best_bid_amount: d.get("best_bid_amount")?.as_number()?.to_string(),
        best_ask_price: d.get("best_ask_price")?.as_number()?.to_string(),
        best_ask_amount: d.get("best_ask_amount")?.as_number()?.to_string(),
    })
}

} // verus!
