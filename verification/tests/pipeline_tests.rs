use quotefeed::decimal::Px;
use quotefeed::models::QuoteEntry;
use quotefeed::pipeline::{ingest_all, instrument_key, process_message, process_shared, Exchange};
use quotefeed::render::render_log_line;
use quotefeed::store::{QuoteStore, SharedQuoteStore};

fn binance_msg(bid: &str, event: i64) -> String {
    format!(
        r#"{{"stream":"btcusdt@bookTicker","data":{{"s":"BTCUSDT","b":"{}","B":"2.0","a":"101.0","A":"3.0","E":{}}}}}"#,
        bid, event
    )
}

#[test]
fn process_updates_store_and_renders_line() {
    let key = "BTCUSDT_PERP_BINANCE";
    let mut store = QuoteStore::new(vec![key.to_string()]);
    let msg = binance_msg("100.5", 1000);
    let out = process_message(&mut store, Exchange::Binance, key, &msg, 1050);
    let (q, line) = out.expect("valid message");
    assert_eq!(q.bestBid, Px { mantissa: 1005, scale: 1 });
    assert_eq!(q.timestamp, 1000);
    assert_eq!(q.localTimestamp, 1050);
    assert_eq!(store.get(key), Some(&q));
    assert_eq!(
        line,
        "BTCUSDT_PERP_BINANCE: bestBid 100.5, bestBidQuantity 2.0, bestAsk 101.0, \
         bestAskQuantity 3.0, eventTime 1000, localTimestamp 1050, totalLatency 50\n"
    );
}

#[test]
fn canonical_instrument_keys() {
    assert_eq!(instrument_key(Exchange::Binance, "BTCUSDT"), "BTCUSDT_PERP_BINANCE");
    assert_eq!(instrument_key(Exchange::Binance, "ETHUSDT"), "ETHUSDT_PERP_BINANCE");
    assert_eq!(instrument_key(Exchange::Ftx, "BTC-PERP"), "BTC-PERP_PERP_FTX");
    assert_eq!(instrument_key(Exchange::Deribit, "BTC-PERPETUAL"), "BTC-PERPETUAL_PERP_DERIBIT");
}

#[test]
fn shared_store_routes_by_message_instrument() {
    let store = SharedQuoteStore::new(vec![
        instrument_key(Exchange::Binance, "BTCUSDT"),
        instrument_key(Exchange::Binance, "ETHUSDT"),
    ]);
    let btc = r#"{"stream":"btcusdt@bookTicker","data":{"s":"BTCUSDT","b":"1.1","B":"2.0","a":"1.2","A":"3.0","E":10}}"#;
    let eth = r#"{"stream":"ethusdt@bookTicker","data":{"s":"ETHUSDT","b":"9.9","B":"2.0","a":"9.95","A":"3.0","E":20}}"#;
    let (_q1, line1) = process_shared(&store, Exchange::Binance, btc, 11).expect("valid");
    let (_q2, line2) = process_shared(&store, Exchange::Binance, eth, 21).expect("valid");
    assert!(line1.starts_with("BTCUSDT_PERP_BINANCE: bestBid 1.1, "));
    assert!(line2.starts_with("ETHUSDT_PERP_BINANCE: bestBid 9.9, "));
    // each instrument keeps its own entry: one never overwrites the other
    let btc_entry = store.get("BTCUSDT_PERP_BINANCE").expect("seeded");
    let eth_entry = store.get("ETHUSDT_PERP_BINANCE").expect("seeded");
    assert_eq!(btc_entry.bestBid, Px { mantissa: 11, scale: 1 });
    assert_eq!(btc_entry.timestamp, 10);
    assert_eq!(eth_entry.bestBid, Px { mantissa: 99, scale: 1 });
    assert_eq!(eth_entry.timestamp, 20);
    // a malformed message changes nothing
    assert!(process_shared(&store, Exchange::Binance, "junk", 30).is_err());
    assert_eq!(store.get("BTCUSDT_PERP_BINANCE").unwrap().timestamp, 10);
}

#[test]
fn render_handles_extreme_timestamps() {
    let e = QuoteEntry {
        bestBid: Px { mantissa: -1005, scale: 1 },
        bestBidAmount: Px { mantissa: 0, scale: 0 },
        bestAsk: Px { mantissa: 25, scale: 3 },
        bestAskAmount: Px { mantissa: 0, scale: 0 },
        timestamp: i64::MAX,
        localTimestamp: i64::MIN,
    };
    let line = render_log_line("K", &e);
    assert!(line.starts_with("K: bestBid -100.5, bestBidQuantity 0, bestAsk 0.025, "));
    assert!(line.contains("eventTime 9223372036854775807, localTimestamp -9223372036854775808, "));
    assert!(line.ends_with("totalLatency -18446744073709551615\n"));
}

#[test]
fn latency_is_local_minus_event() {
    let e = QuoteEntry {
        bestBid: Px { mantissa: 0, scale: 0 },
        bestBidAmount: Px { mantissa: 0, scale: 0 },
        bestAsk: Px { mantissa: 0, scale: 0 },
        bestAskAmount: Px { mantissa: 0, scale: 0 },
        timestamp: 1000,
        localTimestamp: 1050,
    };
    let line = render_log_line("K", &e);
    assert!(line.ends_with("totalLatency 50\n"));
    // clock skew makes it negative, never a crash
    let skewed = QuoteEntry { timestamp: 1050, localTimestamp: 1000, ..e };
    let line2 = render_log_line("K", &skewed);
    assert!(line2.ends_with("totalLatency -50\n"));
}

#[test]
fn message_order_is_preserved() {
    let key = "BTCUSDT_PERP_BINANCE";
    let mut store = QuoteStore::new(vec![key.to_string()]);
    let msgs = vec![binance_msg("1.1", 1), binance_msg("2.2", 2), binance_msg("3.3", 3)];
    let ts = vec![11, 12, 13];
    let outcomes = ingest_all(&mut store, Exchange::Binance, key, &msgs, &ts);
    assert_eq!(outcomes.len(), 3);
    assert!(outcomes.iter().all(|o| o.is_ok()));
    let latest = store.get(key).expect("key stays present");
    // the last message's values, never an earlier one left stale
    assert_eq!(latest.bestBid, Px { mantissa: 33, scale: 1 });
    assert_eq!(latest.timestamp, 3);
    assert_eq!(latest.localTimestamp, 13);
}

#[test]
fn malformed_message_is_isolated() {
    let key = "BTCUSDT_PERP_BINANCE";
    let mut store = QuoteStore::new(vec![key.to_string()]);
    let bad = "{this is not json".to_string();
    let msgs = vec![binance_msg("1.1", 1), bad.clone(), binance_msg("3.3", 3)];
    let ts = vec![11, 12, 13];
    let outcomes = ingest_all(&mut store, Exchange::Binance, key, &msgs, &ts);
    assert_eq!(outcomes.len(), 3);
    assert!(outcomes[0].is_ok());
    assert!(outcomes[2].is_ok());
    // exactly one failure, carrying the offending raw payload
    let errs: Vec<_> = outcomes.iter().filter(|o| o.is_err()).collect();
    assert_eq!(errs.len(), 1);
    match &outcomes[1] {
        Err(e) => assert_eq!(e.payload, bad),
        Ok(_) => panic!("the malformed message must fail"),
    }
    // the store reflects the last valid message
    let latest = store.get(key).expect("key stays present");
    assert_eq!(latest.bestBid, Px { mantissa: 33, scale: 1 });
    assert_eq!(latest.timestamp, 3);
}

#[test]
fn failed_message_leaves_store_unchanged() {
    let key = "K";
    let mut store = QuoteStore::new(vec![key.to_string()]);
    let out = process_message(&mut store, Exchange::Binance, key, "garbage", 7);
    match out {
        Err(e) => assert_eq!(e.payload, "garbage"),
        Ok(_) => panic!("garbage must not parse"),
    }
    assert_eq!(store.get(key), Some(&QuoteEntry::zero()));
}

#[test]
fn ftx_pipeline_converts_time() {
    let key = "BTCUSDT_PERP_FTX";
    let mut store = QuoteStore::new(vec![key.to_string()]);
    let msg = r#"{"channel":"ticker","market":"BTC-PERP","type":"update","data":{"bid":100.5,"ask":101.0,"bidSize":2.0,"askSize":3.0,"time":1700000000.123}}"#;
    let (q, _line) = process_message(&mut store, Exchange::Ftx, key, msg, 1700000000150)
        .expect("valid message");
    assert_eq!(q.timestamp, 1700000000123);
    assert_eq!(store.get(key).unwrap().timestamp, 1700000000123);
}

#[test]
fn deribit_pipeline_round_trip() {
    let key = "BTCUSDT_PERP_DERIBIT";
    let mut store = QuoteStore::new(vec![key.to_string()]);
    let msg = r#"{"params":{"channel":"quote.BTC-PERPETUAL","data":{"timestamp":42,"instrument_name":"BTC-PERPETUAL","best_bid_price":9.25,"best_bid_amount":1.0,"best_ask_price":9.5,"best_ask_amount":2.0}}}"#;
    let (q, line) = process_message(&mut store, Exchange::Deribit, key, msg, 52)
        .expect("valid message");
    assert_eq!(q.bestBid, Px { mantissa: 925, scale: 2 });
    assert_eq!(q.bestAsk, Px { mantissa: 95, scale: 1 });
    assert_eq!(q.timestamp, 42);
    assert!(line.starts_with("BTCUSDT_PERP_DERIBIT: bestBid 9.25, "));
    assert!(line.ends_with("totalLatency 10\n"));
}
