use vstd::prelude::*;
use vstd::string::StringExecFns;
use crate::adapters::{
    deribit_data_of, deribit_wire_parses, ftx_data_of, ftx_wire_parses, parse_binance_message,
    parse_deribit_message, parse_ftx_message, quote_from_binance, quote_from_deribit,
    quote_from_ftx,
};
use crate::decimal::{px_millis, px_of, px_parses};
use crate::json::{binance_wire_of, deribit_wire_of, ftx_wire_of};
use crate::models::{ParseError, QuoteEntry};
use crate::render::{log_line, render_log_line};
use crate::store::{QuoteStore, SharedQuoteStore};

verus! {

/// One ingestion loop exists per exchange; the loop body is the same
/// for all three, parameterized by the exchange whose schema the raw
/// message follows.
#[derive(Clone, Copy, Debug, PartialEq, Eq, Structural)]
pub enum Exchange {
    Binance,
    Ftx,
    Deribit,
}

/// What one processed message did to the store's map: a successful
/// message replaced the entry under its key, whole; a failed one left
/// the store untouched.
pub open spec fn apply_outcome(
    m: Map<Seq<char>, QuoteEntry>,
    k: Seq<char>,
    o: Result<(QuoteEntry, String), ParseError>,
) -> Map<Seq<char>, QuoteEntry> {
    match o {
        Ok(p) => m.insert(k, p.0),
        Err(_) => m,
    }
}

/// The store's map after a run of messages for one key, first
/// message first.
pub open spec fn apply_outcomes(
    m: Map<Seq<char>, QuoteEntry>,
    k: Seq<char>,
    os: Seq<Result<(QuoteEntry, String), ParseError>>,
) -> Map<Seq<char>, QuoteEntry>
    decreases os.len(),
{
    if os.len() == 0 {
        m
    } else {
        apply_outcomes(apply_outcome(m, k, os[0]), k, os.drop_first())
    }
}

/// The record of the last successfully adapted message, if any.
pub open spec fn last_ok_record(os: Seq<Result<(QuoteEntry, String), ParseError>>) -> Option<
    QuoteEntry,
>
    decreases os.len(),
{
    if os.len() == 0 {
        None
    } else {
        match os.last() {
            Ok(p) => Some(p.0),
            Err(_) => last_ok_record(os.drop_last()),
        }
    }
}

proof fn lemma_apply_outcomes_snoc(
    m: Map<Seq<char>, QuoteEntry>,
    k: Seq<char>,
    os: Seq<Result<(QuoteEntry, String), ParseError>>,
    o: Result<(QuoteEntry, String), ParseError>,
)
    ensures
        apply_outcomes(m, k, os.push(o)) == apply_outcome(apply_outcomes(m, k, os), k, o),
    decreases os.len(),
{
    if os.len() == 0 {
        assert(os.push(o)[0] == o);
        assert(os.push(o).drop_first() =~= Seq::<Result<(QuoteEntry, String), ParseError>>::empty());
        assert(apply_outcomes(m, k, os.push(o)) == apply_outcomes(
            apply_outcome(m, k, o),
            k,
            os.push(o).drop_first(),
        ));
        assert(apply_outcomes(apply_outcome(m, k, o), k, os.push(o).drop_first())
            == apply_outcome(m, k, o));
        assert(apply_outcomes(m, k, os) == m);
    } else {
        assert(os.push(o)[0] == os[0]);
        assert(os.push(o).drop_first() =~= os.drop_first().push(o));
        lemma_apply_outcomes_snoc(apply_outcome(m, k, os[0]), k, os.drop_first(), o);
        assert(apply_outcomes(m, k, os.push(o)) == apply_outcomes(
            apply_outcome(m, k, os[0]),
            k,
            os.drop_first().push(o),
        ));
        assert(apply_outcomes(m, k, os) == apply_outcomes(
            apply_outcome(m, k, os[0]),
            k,
            os.drop_first(),
        ));
    }
}

/// Message-order preservation and malformed-message isolation in one
/// statement: a run of messages for one key leaves the store exactly
/// as one write of the last successful record would, in delivery
/// order — an earlier record never shadows a later one; and a failed
/// message in any position changes nothing, so the store reflects the
/// last valid message. With no successful message the store's map is
/// unchanged.
pub proof fn lemma_feed_outcome(
    m: Map<Seq<char>, QuoteEntry>,
    k: Seq<char>,
    os: Seq<Result<(QuoteEntry, String), ParseError>>,
)
    ensures
        apply_outcomes(m, k, os) == match last_ok_record(os) {
            Some(q) => m.insert(k, q),
            None => m,
        },
    decreases os.len(),
{
    if os.len() > 0 {
        let pre = os.drop_last();
        assert(os =~= pre.push(os.last()));
        lemma_apply_outcomes_snoc(m, k, pre, os.last());
        lemma_feed_outcome(m, k, pre);
        match os.last() {
            Ok(p) => {
                match last_ok_record(pre) {
                    Some(q) => {
                        assert(m.insert(k, q).insert(k, p.0) =~= m.insert(k, p.0));
                    },
                    None => {},
                }
            },
            Err(_) => {},
        }
    }
}

/// The canonical quote that one raw message of one exchange
/// yields, if any: the named wire parse, then the exact projection —
/// string decimals parsed, number texts parsed, the fractional-second
/// time scaled to milliseconds. `None` exactly where the pipeline
/// drops the message as malformed.
pub open spec fn adapted(ex: Exchange, s: Seq<char>, local_ts: i64) -> Option<QuoteEntry> {
    match ex {
        Exchange::Binance => match binance_wire_of(s) {
            Some(w) => if px_parses(w.data.b@) && px_parses(w.data.B@) && px_parses(w.data.a@)
                && px_parses(w.data.A@) {
                Some(
                    QuoteEntry {
                        bestBid: px_of(w.data.b@),
                        bestBidAmount: px_of(w.data.B@),
                        bestAsk: px_of(w.data.a@),
                        bestAskAmount: px_of(w.data.A@),
                        timestamp: w.data.E,
                        localTimestamp: local_ts,
                    },
                )
            } else {
                None
            },
            None => None,
        },
        Exchange::Ftx => match ftx_wire_of(s) {
            Some(w) => if ftx_wire_parses(w) {
                let d = ftx_data_of(w);
                let ms = px_millis(d.time.mantissa as int, d.time.scale as nat);
                if i64::MIN <= ms && ms <= i64::MAX {
                    Some(
                        QuoteEntry {
                            bestBid: d.bid,
                            bestBidAmount: d.bidSize,
                            bestAsk: d.ask,
                            bestAskAmount: d.askSize,
                            timestamp: ms as i64,
                            localTimestamp: local_ts,
                        },
                    )
                } else {
                    None
                }
            } else {
                None
            },
            None => None,
        },
        Exchange::Deribit => match deribit_wire_of(s) {
            Some(w) => if deribit_wire_parses(w) {
                let d = deribit_data_of(w);
                Some(
                    QuoteEntry {
                        bestBid: d.best_bid_price,
                        bestBidAmount: d.best_bid_amount,
                        bestAsk: d.best_ask_price,
                        bestAskAmount: d.best_ask_amount,
                        timestamp: d.timestamp,
                        localTimestamp: local_ts,
                    },
                )
            } else {
                None
            },
            None => None,
        },
    }
}

/// The instrument named by a raw message, as the exchange's own
/// symbol field: `s` for exchange A, `market` for exchange B,
/// `instrument_name` for exchange C.
pub open spec fn wire_symbol(ex: Exchange, s: Seq<char>) -> Option<Seq<char>> {
    match ex {
        Exchange::Binance => match binance_wire_of(s) {
            Some(w) => Some(w.data.s@),
            None => None,
        },
        Exchange::Ftx => match ftx_wire_of(s) {
            Some(w) => Some(w.market@),
            None => None,
        },
        Exchange::Deribit => match deribit_wire_of(s) {
            Some(w) => Some(w.instrument_name@),
            None => None,
        },
    }
}

pub open spec fn exchange_tag(ex: Exchange) -> Seq<char> {
    match ex {
        Exchange::Binance => "BINANCE"@,
        Exchange::Ftx => "FTX"@,
        Exchange::Deribit => "DERIBIT"@,
    }
}

/// The canonical instrument key of one (exchange, instrument) pair:
/// the exchange's symbol with the exchange's tag appended, e.g.
/// `BTCUSDT` on exchange A gives `BTCUSDT_PERP_BINANCE`. Injective
/// per exchange and stable for the process lifetime.
pub open spec fn instrument_key_spec(ex: Exchange, symbol: Seq<char>) -> Seq<char> {
    symbol + "_PERP_"@ + exchange_tag(ex)
}

pub fn instrument_key(ex: Exchange, symbol: &str) -> (r: String)
    ensures
        r@ == instrument_key_spec(ex, symbol@),
{
    let mut out = String::from_str(symbol);
    out.append("_PERP_");
    match ex {
        Exchange::Binance => out.append("BINANCE"),
        Exchange::Ftx => out.append("FTX"),
        Exchange::Deribit => out.append("DERIBIT"),
    }
    proof {
        assert(out@ =~= instrument_key_spec(ex, symbol@));
    }
    out
}

/// Adapt one raw message: the canonical record it yields together
/// with the instrument symbol it names, or `None` exactly where
/// [`adapted`] is `None`.
pub fn adapt_message(ex: Exchange, msg: &str, local_ts: i64) -> (r: Option<(QuoteEntry, String)>)
    ensures
        match r {
            Some(p) => adapted(ex, msg@, local_ts) == Some(p.0) && wire_symbol(ex, msg@) == Some(
                p.1@,
            ),
            None => adapted(ex, msg@, local_ts) is None,
        },
{
    match ex {
        Exchange::Binance => {
            match parse_binance_message(msg) {
                Some(w) => match quote_from_binance(&w.data, local_ts) {
                    Some(q) => Some((q, w.data.s)),
                    None => None,
                },
                None => None,
            }
        },
        Exchange::Ftx => {
            match parse_ftx_message(msg) {
                Some(w) => match quote_from_ftx(&w.data, local_ts) {
                    Some(q) => Some((q, w.market)),
                    None => None,
                },
                None => None,
            }
        },
        Exchange::Deribit => {
            match parse_deribit_message(msg) {
                Some(w) => {
                    let q = quote_from_deribit(&w.params.data, local_ts);
                    Some((q, w.params.data.instrument_name))
                },
                None => None,
            }
        },
    }
}

/// Process one raw message for one exchange: adapt it, and on
/// success replace the store entry for `key`, whole, and render the
/// log line; a message that does not fit the exchange's schema
/// leaves the store untouched and is handed back with its raw
/// payload. Succeeds exactly where [`adapted`] yields a record, and
/// stores and renders exactly that record.
pub fn process_message(
    store: &mut QuoteStore,
    ex: Exchange,
    key: &str,
    msg: &str,
    local_ts: i64,
) -> (r: Result<(QuoteEntry, String), ParseError>)
    requires
        old(store).wf(),
    ensures
        final(store).wf(),
        match r {
            Ok(p) => adapted(ex, msg@, local_ts) == Some(p.0) && p.0.localTimestamp == local_ts
                && final(store)@ == old(store)@.insert(key@, p.0) && p.1@ == log_line(key@, p.0),
            Err(e) => adapted(ex, msg@, local_ts) is None && final(store)@ == old(store)@
                && e.payload@ == msg@,
        },
{
    match adapt_message(ex, msg, local_ts) {
        Some(p) => {
            let (q, _symbol) = p;
            let line = render_log_line(key, &q);
            store.put(String::from_str(key), q);
            Ok((q, line))
        },
        None => Err(ParseError { payload: String::from_str(msg) }),
    }
}

/// Process one raw message against the shared store, under the
/// canonical key of the instrument the message itself names: adapt,
/// derive the key with [`instrument_key`], replace that entry whole
/// under the write lock — taken for the one replacement only, never
/// held across I/O — and render the log line. Succeeds exactly where
/// [`adapted`] yields a record.
pub fn process_shared(
    store: &SharedQuoteStore,
    ex: Exchange,
    msg: &str,
    local_ts: i64,
) -> (r: Result<(QuoteEntry, String), ParseError>)
    ensures
        match r {
            Ok(p) => adapted(ex, msg@, local_ts) == Some(p.0) && p.0.localTimestamp == local_ts
                && match wire_symbol(ex, msg@) {
                Some(sym) => p.1@ == log_line(instrument_key_spec(ex, sym), p.0),
                None => false,
            },
            Err(e) => adapted(ex, msg@, local_ts) is None && e.payload@ == msg@,
        },
{
    match adapt_message(ex, msg, local_ts) {
        Some(p) => {
            let (q, symbol) = p;
            let key = instrument_key(ex, symbol.as_str());
            let line = render_log_line(key.as_str(), &q);
            let (mut st, handle) = store.lock.acquire_write();
            st.put(key, q);
            handle.release_write(st);
            Ok((q, line))
        },
        None => Err(ParseError { payload: String::from_str(msg) }),
    }
}

/// Drain a finished run of raw messages for one exchange in delivery
/// order, each with the local time at which it was processed. The
/// store afterwards is the fold of the per-message outcomes, first
/// message first, and outcome `i` belongs to message `i`: an `Ok`
/// holds exactly the record that message `i` adapts to, with its log
/// line; an `Err` holds message `i` itself, dropped because it
/// adapts to nothing.
pub fn ingest_all(
    store: &mut QuoteStore,
    ex: Exchange,
    key: &str,
    msgs: &Vec<String>,
    local_ts: &Vec<i64>,
) -> (r: Vec<Result<(QuoteEntry, String), ParseError>>)
    requires
        old(store).wf(),
        msgs@.len() == local_ts@.len(),
    ensures
        final(store).wf(),
        r@.len() == msgs@.len(),
        final(store)@ == apply_outcomes(old(store)@, key@, r@),
        forall|i: int|
            0 <= i < r@.len() ==> match #[trigger] r@[i] {
                Ok(p) => adapted(ex, msgs@[i]@, local_ts@[i]) == Some(p.0) && p.0.localTimestamp
                    == local_ts@[i] && p.1@ == log_line(key@, p.0),
                Err(e) => adapted(ex, msgs@[i]@, local_ts@[i]) is None && e.payload@ == msgs@[i]@,
            },
{
    let mut out: Vec<Result<(QuoteEntry, String), ParseError>> = Vec::new();
    let mut t: usize = 0;
    while t < msgs.len()
        invariant
            old(store).wf(),
            store.wf(),
            t <= msgs@.len(),
            msgs@.len() == local_ts@.len(),
            out@.len() == t,
            store@ == apply_outcomes(old(store)@, key@, out@),
            forall|i: int|
                0 <= i < out@.len() ==> match #[trigger] out@[i] {
                    Ok(p) => adapted(ex, msgs@[i]@, local_ts@[i]) == Some(p.0)
                        && p.0.localTimestamp == local_ts@[i] && p.1@ == log_line(key@, p.0),
                    Err(e) => adapted(ex, msgs@[i]@, local_ts@[i]) is None && e.payload@
                        == msgs@[i]@,
                },
        decreases msgs@.len() - t,
    {
        let ghost prev = out@;
        let o = process_message(store, ex, key, msgs[t].as_str(), local_ts[t]);
        proof {
            lemma_apply_outcomes_snoc(old(store)@, key@, prev, o);
        }
        out.push(o);
        t = t + 1;
    }
    out
}

} // verus!
