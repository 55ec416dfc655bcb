use quotefeed::decimal::Px;
use quotefeed::models::QuoteEntry;
use quotefeed::store::{QuoteStore, SharedQuoteStore};

fn record(bid: i64, ts: i64, local: i64) -> QuoteEntry {
    QuoteEntry {
        bestBid: Px { mantissa: bid, scale: 0 },
        bestBidAmount: Px { mantissa: 1, scale: 0 },
        bestAsk: Px { mantissa: bid + 1, scale: 0 },
        bestAskAmount: Px { mantissa: 2, scale: 0 },
        timestamp: ts,
        localTimestamp: local,
    }
}

fn lookup(snap: &[(String, QuoteEntry)], key: &str) -> Option<QuoteEntry> {
    snap.iter().find(|p| p.0 == key).map(|p| p.1)
}

#[test]
fn store_last_write_wins() {
    let mut store = QuoteStore::new(vec!["K".to_string()]);
    let r1 = record(100, 10, 11);
    let r2 = record(200, 20, 22);
    store.put("K".to_string(), r1);
    store.put("K".to_string(), r2);
    let snap = store.snapshot();
    // the whole second record, never a mix of the two
    assert_eq!(lookup(&snap, "K"), Some(r2));
    assert_eq!(store.get("K"), Some(&r2));
}

#[test]
fn store_pre_seeded_keys() {
    let keys = vec![
        "BTCUSDT_PERP_BINANCE".to_string(),
        "BTCUSDT_PERP_FTX".to_string(),
        "BTCUSDT_PERP_DERIBIT".to_string(),
    ];
    let store = QuoteStore::new(keys.clone());
    let snap = store.snapshot();
    assert_eq!(snap.len(), 3);
    for k in &keys {
        let e = lookup(&snap, k).expect("every tracked key is present");
        assert_eq!(e, QuoteEntry::zero());
        assert_eq!(e.bestBid, Px { mantissa: 0, scale: 0 });
        assert_eq!(e.timestamp, 0);
        assert_eq!(e.localTimestamp, 0);
    }
}

#[test]
fn store_put_new_key() {
    let mut store = QuoteStore::new(vec!["A".to_string()]);
    let r = record(5, 1, 2);
    store.put("B".to_string(), r);
    let snap = store.snapshot();
    assert_eq!(snap.len(), 2);
    assert_eq!(lookup(&snap, "A"), Some(QuoteEntry::zero()));
    assert_eq!(lookup(&snap, "B"), Some(r));
}

#[test]
fn shared_store_put_and_snapshot() {
    let shared = SharedQuoteStore::new(vec!["K1".to_string(), "K2".to_string()]);
    let snap0 = shared.snapshot();
    assert_eq!(snap0.len(), 2);
    assert_eq!(lookup(&snap0, "K1"), Some(QuoteEntry::zero()));
    let r1 = record(300, 30, 33);
    shared.put("K1".to_string(), r1);
    let snap1 = shared.snapshot();
    assert_eq!(lookup(&snap1, "K1"), Some(r1));
    assert_eq!(lookup(&snap1, "K2"), Some(QuoteEntry::zero()));
    assert_eq!(shared.get("K1"), Some(r1));
    assert_eq!(shared.get("missing"), None);
}
