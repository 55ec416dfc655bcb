use vstd::prelude::*;
use vstd::string::StringExecFns;
use crate::decimal::{lemma_pow10_pos, pow10, Px};
use crate::models::QuoteEntry;

verus! {

pub open spec fn digit_char(d: int) -> char {
    if d == 0 {
        '0'
    } else if d == 1 {
        '1'
    } else if d == 2 {
        '2'
    } else if d == 3 {
        '3'
    } else if d == 4 {
        '4'
    } else if d == 5 {
        '5'
    } else if d == 6 {
        '6'
    } else if d == 7 {
        '7'
    } else if d == 8 {
        '8'
    } else {
        '9'
    }
}

/// The usual decimal numeral of a non-negative integer, no leading
/// zeros but for the numeral of zero itself.
pub open spec fn dec_str_nat(n: int) -> Seq<char>
    recommends
        n >= 0,
    decreases n,
{
    if n < 10 {
        seq![digit_char(n)]
    } else {
        dec_str_nat(n / 10).push(digit_char(n % 10))
    }
}

pub open spec fn dec_str_int(n: int) -> Seq<char> {
    if n < 0 {
        seq!['-'] + dec_str_nat(-n)
    } else {
        dec_str_nat(n)
    }
}

/// The last `w` decimal digits of `n`, zero-padded to width `w`.
pub open spec fn dec_str_nat_pad(n: int, w: nat) -> Seq<char>
    decreases w,
{
    if w == 0 {
        Seq::<char>::empty()
    } else {
        dec_str_nat_pad(n / 10, (w - 1) as nat).push(digit_char(n % 10))
    }
}

/// The decimal numeral of a `Px`: its integer part, then, for a
/// scaled value, a dot and exactly `scale` fraction digits.
pub open spec fn px_str(p: Px) -> Seq<char> {
    let m = p.mantissa as int;
    let s = p.scale as nat;
    let mag = if m >= 0 {
        m
    } else {
        -m
    };
    if s == 0 {
        dec_str_int(m)
    } else {
        (if m < 0 {
            seq!['-']
        } else {
            Seq::<char>::empty()
        }) + dec_str_nat(mag / pow10(s)) + seq!['.'] + dec_str_nat_pad(mag, s)
    }
}

fn digit_str(d: u128) -> (r: &'static str)
    requires
        d < 10,
    ensures
        r@ == seq![digit_char(d as int)],
{
    proof {
        reveal_strlit("0");
        reveal_strlit("1");
        reveal_strlit("2");
        reveal_strlit("3");
        reveal_strlit("4");
        reveal_strlit("5");
        reveal_strlit("6");
        reveal_strlit("7");
        reveal_strlit("8");
        reveal_strlit("9");
        assert("0"@ =~= seq![digit_char(0)]);
        assert("1"@ =~= seq![digit_char(1)]);
        assert("2"@ =~= seq![digit_char(2)]);
        assert("3"@ =~= seq![digit_char(3)]);
        assert("4"@ =~= seq![digit_char(4)]);
        assert("5"@ =~= seq![digit_char(5)]);
        assert("6"@ =~= seq![digit_char(6)]);
        assert("7"@ =~= seq![digit_char(7)]);
        assert("8"@ =~= seq![digit_char(8)]);
        assert("9"@ =~= seq![digit_char(9)]);
    }
    if d == 0 {
        "0"
    } else if d == 1 {
        "1"
    } else if d == 2 {
        "2"
    } else if d == 3 {
        "3"
    } else if d == 4 {
        "4"
    } else if d == 5 {
        "5"
    } else if d == 6 {
        "6"
    } else if d == 7 {
        "7"
    } else if d == 8 {
        "8"
    } else {
        "9"
    }
}

fn push_digits(n: u128, out: &mut String)
    ensures
        final(out)@ == old(out)@ + dec_str_nat(n as int),
    decreases n,
{
    if n < 10 {
        out.append(digit_str(n));
    } else {
        push_digits(n / 10, out);
        out.append(digit_str(n % 10));
        proof {
            assert(old(out)@ + dec_str_nat(n as int / 10) + seq![digit_char(n as int % 10)]
                =~= old(out)@ + dec_str_nat(n as int));
        }
    }
}

fn push_digits_pad(n: u128, w: u32, out: &mut String)
    ensures
        final(out)@ == old(out)@ + dec_str_nat_pad(n as int, w as nat),
    decreases w,
{
    if w > 0 {
        push_digits_pad(n / 10, w - 1, out);
        out.append(digit_str(n % 10));
        proof {
            assert(old(out)@ + dec_str_nat_pad(n as int / 10, (w - 1) as nat) + seq![
                digit_char(n as int % 10)
            ] =~= old(out)@ + dec_str_nat_pad(n as int, w as nat));
        }
    } else {
        proof {
            assert(old(out)@ + dec_str_nat_pad(n as int, 0) =~= old(out)@);
        }
    }
}

/// An integer as decimal text, a leading `'-'` for a negative one.
pub fn i128_to_string(n: i128) -> (r: String)
    ensures
        r@ == dec_str_int(n as int),
{
    let mut out = String::new();
    if n >= 0 {
        push_digits(n as u128, &mut out);
        proof {
            assert(Seq::<char>::empty() + dec_str_nat(n as int) =~= dec_str_nat(n as int));
        }
    } else {
        proof {
            reveal_strlit("-");
            assert("-"@ =~= seq!['-']);
        }
        out.append("-");
        let mag: u128 = ((-(n + 1)) as u128) + 1;
        push_digits(mag, &mut out);
        proof {
            assert(Seq::<char>::empty() + "-"@ + dec_str_nat(mag as int) =~= dec_str_int(n as int));
        }
    }
    out
}

/// A `Px` as decimal text, the exact numeral of its value.
pub fn px_to_string(p: Px) -> (r: String)
    ensures
        r@ == px_str(p),
{
    if p.scale == 0 {
        return i128_to_string(p.mantissa as i128);
    }
    let mut out = String::new();
    if p.mantissa < 0 {
        proof {
            reveal_strlit("-");
            assert("-"@ =~= seq!['-']);
        }
        out.append("-");
    }
    let mag: u128 = if p.mantissa >= 0 {
        p.mantissa as u128
    } else {
        (-(p.mantissa as i128)) as u128
    };
    let mut q = mag;
    let mut t: u32 = 0;
    while t < p.scale
        invariant
            t <= p.scale,
            q as int == mag as int / pow10(t as nat),
        decreases p.scale - t,
    {
        proof {
            lemma_pow10_pos(t as nat);
            vstd::arithmetic::div_mod::lemma_div_denominator(mag as int, pow10(t as nat), 10);
        }
        q = q / 10;
        t = t + 1;
    }
    push_digits(q, &mut out);
    proof {
        reveal_strlit(".");
        assert("."@ =~= seq!['.']);
    }
    out.append(".");
    push_digits_pad(mag, p.scale, &mut out);
    proof {
        assert(out@ =~= px_str(p));
    }
    out
}

/// One log line per successfully adapted message: the instrument key,
/// the four quote fields, both timestamps, and the total latency,
/// which is the local receipt time minus the exchange event time and
/// may be negative under clock skew. Newline-terminated; the key is
/// not escaped.
pub open spec fn log_line(key: Seq<char>, e: QuoteEntry) -> Seq<char> {
    key + ": bestBid "@ + px_str(e.bestBid) + ", bestBidQuantity "@ + px_str(e.bestBidAmount)
        + ", bestAsk "@ + px_str(e.bestAsk) + ", bestAskQuantity "@ + px_str(e.bestAskAmount)
        + ", eventTime "@ + dec_str_int(e.timestamp as int) + ", localTimestamp "@ + dec_str_int(
        e.localTimestamp as int,
    ) + ", totalLatency "@ + dec_str_int(e.localTimestamp as int - e.timestamp as int) + "\n"@
}

pub fn render_log_line(key: &str, e: &QuoteEntry) -> (r: String)
    ensures
        r@ == log_line(key@, *e),
{
    let mut out = String::from_str(key);
    out.append(": bestBid ");
    let p1 = px_to_string(e.bestBid);
    out.append(p1.as_str());
    out.append(", bestBidQuantity ");
    let p2 = px_to_string(e.bestBidAmount);
    out.append(p2.as_str());
    out.append(", bestAsk ");
    let p3 = px_to_string(e.bestAsk);
    out.append(p3.as_str());
    out.append(", bestAskQuantity ");
    let p4 = px_to_string(e.bestAskAmount);
    out.append(p4.as_str());
    out.append(", eventTime ");
    let t1 = i128_to_string(e.timestamp as i128);
    out.append(t1.as_str());
    out.append(", localTimestamp ");
    let t2 = i128_to_string(e.localTimestamp as i128);
    out.append(t2.as_str());
    out.append(", totalLatency ");
    let lat = i128_to_string((e.localTimestamp as i128) - (e.timestamp as i128));
    out.append(lat.as_str());
    out.append("\n");
    proof {
        assert(out@ =~= log_line(key@, *e));
    }
    out
}

} // verus!
