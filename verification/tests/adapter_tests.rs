use quotefeed::adapters::{
    parse_binance_message, parse_deribit_message, parse_ftx_message, quote_from_binance,
    quote_from_deribit, quote_from_ftx,
};
use quotefeed::decimal::{parse_px, px_event_millis, Px};

#[test]
fn parse_px_integer() {
    assert_eq!(parse_px("0"), Some(Px { mantissa: 0, scale: 0 }));
    assert_eq!(parse_px("42"), Some(Px { mantissa: 42, scale: 0 }));
    assert_eq!(parse_px("-7"), Some(Px { mantissa: -7, scale: 0 }));
}

#[test]
fn parse_px_fraction() {
    assert_eq!(parse_px("100.5"), Some(Px { mantissa: 1005, scale: 1 }));
    assert_eq!(parse_px("2.0"), Some(Px { mantissa: 20, scale: 1 }));
    assert_eq!(parse_px("-0.25"), Some(Px { mantissa: -25, scale: 2 }));
    assert_eq!(parse_px("1700000000.123"), Some(Px { mantissa: 1700000000123, scale: 3 }));
}

#[test]
fn parse_px_malformed() {
    assert_eq!(parse_px(""), None);
    assert_eq!(parse_px("-"), None);
    assert_eq!(parse_px("."), None);
    assert_eq!(parse_px("1."), None);
    assert_eq!(parse_px(".5"), None);
    assert_eq!(parse_px("1.2.3"), None);
    assert_eq!(parse_px("12a"), None);
    assert_eq!(parse_px("1e3"), None);
    assert_eq!(parse_px(" 1"), None);
}

#[test]
fn parse_px_overflow() {
    // one digit past the largest representable mantissa
    assert_eq!(parse_px("92233720368547758070"), None);
    assert_eq!(parse_px("9223372036854775807"), Some(Px { mantissa: i64::MAX, scale: 0 }));
}

#[test]
fn event_millis_rounds_to_nearest() {
    // fractional seconds, scaled to milliseconds and rounded
    assert_eq!(px_event_millis(Px { mantissa: 1700000000123, scale: 3 }), Some(1700000000123));
    assert_eq!(px_event_millis(Px { mantissa: 10005, scale: 4 }), Some(1001)); // 1.0005 s
    assert_eq!(px_event_millis(Px { mantissa: 10004, scale: 4 }), Some(1000)); // 1.0004 s
    assert_eq!(px_event_millis(Px { mantissa: -10005, scale: 4 }), Some(-1001));
    assert_eq!(px_event_millis(Px { mantissa: 2, scale: 0 }), Some(2000));
    assert_eq!(px_event_millis(Px { mantissa: 25, scale: 1 }), Some(2500));
}

#[test]
fn event_millis_tiny_value_rounds_to_zero() {
    // far below half a millisecond, whatever the scale
    assert_eq!(px_event_millis(Px { mantissa: 123, scale: 26 }), Some(0));
    assert_eq!(px_event_millis(Px { mantissa: i64::MAX, scale: 30 }), Some(0));
}

#[test]
fn event_millis_overflow() {
    // seconds whose millisecond count no longer fits
    assert_eq!(px_event_millis(Px { mantissa: i64::MAX, scale: 0 }), None);
    assert_eq!(px_event_millis(Px { mantissa: i64::MIN, scale: 0 }), None);
}

#[test]
fn binance_adapter_round_trip() {
    let msg = r#"{"stream":"btcusdt@bookTicker","data":{"s":"BTCUSDT","b":"100.5","B":"2.0","a":"101.0","A":"3.0","E":1700000000000}}"#;
    let w = parse_binance_message(msg).expect("well-formed message");
    assert_eq!(w.stream, "btcusdt@bookTicker");
    assert_eq!(w.data.s, "BTCUSDT");
    assert_eq!(w.data.b, "100.5");
    assert_eq!(w.data.E, 1700000000000);
    let q = quote_from_binance(&w.data, 1700000000050).expect("numeric fields");
    assert_eq!(q.bestBid, Px { mantissa: 1005, scale: 1 });
    assert_eq!(q.bestBidAmount, Px { mantissa: 20, scale: 1 });
    assert_eq!(q.bestAsk, Px { mantissa: 1010, scale: 1 });
    assert_eq!(q.bestAskAmount, Px { mantissa: 30, scale: 1 });
    assert_eq!(q.timestamp, 1700000000000);
    assert_eq!(q.localTimestamp, 1700000000050);
}

#[test]
fn ftx_adapter_round_trip() {
    let msg = r#"{"channel":"ticker","market":"BTC-PERP","type":"update","data":{"bid":100.5,"ask":101.0,"bidSize":2.0,"askSize":3.0,"time":1700000000.123}}"#;
    let w = parse_ftx_message(msg).expect("well-formed message");
    assert_eq!(w.market, "BTC-PERP");
    assert_eq!(w.data.bid, Px { mantissa: 1005, scale: 1 });
    assert_eq!(w.data.time, Px { mantissa: 1700000000123, scale: 3 });
    let q = quote_from_ftx(&w.data, 1700000000200).expect("time fits");
    assert_eq!(q.bestBid, Px { mantissa: 1005, scale: 1 });
    assert_eq!(q.bestBidAmount, Px { mantissa: 20, scale: 1 });
    assert_eq!(q.bestAsk, Px { mantissa: 1010, scale: 1 });
    assert_eq!(q.bestAskAmount, Px { mantissa: 30, scale: 1 });
    // fractional seconds became integer milliseconds, rounded
    assert_eq!(q.timestamp, 1700000000123);
    assert_eq!(q.localTimestamp, 1700000000200);
}

#[test]
fn deribit_adapter_round_trip() {
    let msg = r#"{"params":{"channel":"quote.BTC-PERPETUAL","data":{"timestamp":1700000000000,"instrument_name":"BTC-PERPETUAL","best_bid_price":100.5,"best_bid_amount":2.0,"best_ask_price":101.0,"best_ask_amount":3.0}}}"#;
    let w = parse_deribit_message(msg).expect("well-formed message");
    assert_eq!(w.params.channel, "quote.BTC-PERPETUAL");
    assert_eq!(w.params.data.instrument_name, "BTC-PERPETUAL");
    let q = quote_from_deribit(&w.params.data, 1700000000060);
    assert_eq!(q.bestBid, Px { mantissa: 1005, scale: 1 });
    assert_eq!(q.bestBidAmount, Px { mantissa: 20, scale: 1 });
    assert_eq!(q.bestAsk, Px { mantissa: 1010, scale: 1 });
    assert_eq!(q.bestAskAmount, Px { mantissa: 30, scale: 1 });
    assert_eq!(q.timestamp, 1700000000000);
    assert_eq!(q.localTimestamp, 1700000000060);
}

#[test]
fn adapter_rejects_missing_fields() {
    assert!(parse_binance_message(r#"{"stream":"x","data":{"s":"BTCUSDT"}}"#).is_none());
    assert!(parse_ftx_message(r#"{"market":"BTC-PERP","data":{"bid":1}}"#).is_none());
    assert!(parse_deribit_message(r#"{"params":{"channel":"c"}}"#).is_none());
    assert!(parse_binance_message("not json at all").is_none());
}

#[test]
fn adapter_rejects_non_numeric_strings() {
    let msg = r#"{"stream":"s","data":{"s":"BTCUSDT","b":"abc","B":"2.0","a":"101.0","A":"3.0","E":5}}"#;
    let w = parse_binance_message(msg).expect("shape is fine");
    assert!(quote_from_binance(&w.data, 0).is_none());
}
