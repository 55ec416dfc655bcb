use vstd::prelude::*;

verus! {

/// A price or size as an exact decimal: the represented value is
/// `mantissa / 10^scale`. Wire formats carry these either as quoted
/// strings (`"100.5"`) or as bare JSON numbers; both are held exactly,
/// never rounded.
#[derive(Clone, Copy, Debug, PartialEq, Eq, Structural)]
pub struct Px {
    pub mantissa: i64,
    pub scale: u32,
}

impl Px {
    pub fn zero() -> (r: Px)
        ensures
            r == (Px { mantissa: 0, scale: 0 }),
    {
        Px { mantissa: 0, scale: 0 }
    }
}

pub open spec fn is_digit(c: char) -> bool {
    '0' <= c && c <= '9'
}

pub open spec fn digit_val(c: char) -> int {
    c as int - '0' as int
}

/// Numeric value of a digit string, most significant digit first.
pub open spec fn digits_val(s: Seq<char>) -> int
    decreases s.len(),
{
    if s.len() == 0 {
        0
    } else {
        digits_val(s.drop_last()) * 10 + digit_val(s.last())
    }
}

pub open spec fn all_digits(s: Seq<char>) -> bool {
    forall|i: int| 0 <= i < s.len() ==> is_digit(#[trigger] s[i])
}

/// Index of the first `'.'` in `s`, or `s.len()` if there is none.
pub open spec fn dot_pos(s: Seq<char>) -> int
    decreases s.len(),
{
    if s.len() == 0 {
        0
    } else if s[0] == '.' {
        0
    } else {
        1 + dot_pos(s.drop_first())
    }
}

pub open spec fn pow10(k: nat) -> int
    decreases k,
{
    if k == 0 {
        1
    } else {
        10 * pow10((k - 1) as nat)
    }
}

/// The decimal text without its sign.
pub open spec fn dec_neg(s: Seq<char>) -> bool {
    s.len() > 0 && s[0] == '-'
}

pub open spec fn dec_body(s: Seq<char>) -> Seq<char> {
    if dec_neg(s) {
        s.drop_first()
    } else {
        s
    }
}

pub open spec fn dec_int_digits(s: Seq<char>) -> Seq<char> {
    dec_body(s).take(dot_pos(dec_body(s)))
}

pub open spec fn dec_frac_digits(s: Seq<char>) -> Seq<char> {
    let b = dec_body(s);
    if dot_pos(b) == b.len() {
        Seq::<char>::empty()
    } else {
        b.skip(dot_pos(b) + 1)
    }
}

/// All digits of the decimal, the dot dropped.
pub open spec fn dec_digits(s: Seq<char>) -> Seq<char> {
    dec_int_digits(s) + dec_frac_digits(s)
}

/// The accepted decimal grammar: an optional leading `'-'`, one or
/// more digits, then optionally a `'.'` followed by one or more
/// digits. No other signs, no blanks, and no exponent forms: the
/// pipeline guarantees exact decimal pass-through, and the plain
/// numerals here are what the exchanges' tickers emit; an exponent
/// numeral such as `1e30` need not fit any bounded-mantissa decimal
/// at all, so such a text is dropped as a message-level failure —
/// never rounded through binary floating point, never a crash.
pub open spec fn dec_wf(s: Seq<char>) -> bool {
    let b = dec_body(s);
    &&& dec_int_digits(s).len() > 0
    &&& all_digits(dec_int_digits(s))
    &&& (dot_pos(b) < b.len() ==> dec_frac_digits(s).len() > 0 && all_digits(dec_frac_digits(s)))
}

pub open spec fn dec_scale(s: Seq<char>) -> nat {
    dec_frac_digits(s).len()
}

pub open spec fn dec_mantissa_abs(s: Seq<char>) -> int {
    digits_val(dec_digits(s))
}

pub open spec fn dec_mantissa(s: Seq<char>) -> int {
    if dec_neg(s) {
        -dec_mantissa_abs(s)
    } else {
        dec_mantissa_abs(s)
    }
}

/// Whether the text is well formed and its exact value fits a `Px`.
pub open spec fn px_parses(s: Seq<char>) -> bool {
    &&& dec_wf(s)
    &&& dec_mantissa_abs(s) <= i64::MAX
    &&& dec_scale(s) <= u32::MAX
}

pub open spec fn px_of(s: Seq<char>) -> Px {
    Px { mantissa: dec_mantissa(s) as i64, scale: dec_scale(s) as u32 }
}

proof fn lemma_digits_val_nonneg(s: Seq<char>)
    requires
        all_digits(s),
    ensures
        digits_val(s) >= 0,
    decreases s.len(),
{
    if s.len() > 0 {
        assert(all_digits(s.drop_last()));
        lemma_digits_val_nonneg(s.drop_last());
    }
}

proof fn lemma_digits_val_append(a: Seq<char>, b: Seq<char>)
    ensures
        digits_val(a + b) == digits_val(a) * pow10(b.len()) + digits_val(b),
    decreases b.len(),
{
    if b.len() == 0 {
        assert(a + b =~= a);
    } else {
        assert((a + b).drop_last() =~= a + b.drop_last());
        assert((a + b).last() == b.last());
        lemma_digits_val_append(a, b.drop_last());
        assert(digits_val(a + b) == (digits_val(a) * pow10((b.len() - 1) as nat) + digits_val(
            b.drop_last(),
        )) * 10 + digit_val(b.last()));
        assert(digits_val(a) * pow10((b.len() - 1) as nat) * 10 == digits_val(a) * pow10(b.len()))
            by (nonlinear_arith)
            requires
                pow10(b.len()) == 10 * pow10((b.len() - 1) as nat),
        ;
    }
}

pub proof fn lemma_pow10_pos(k: nat)
    ensures
        pow10(k) >= 1,
    decreases k,
{
    if k > 0 {
        lemma_pow10_pos((k - 1) as nat);
    }
}

/// A digit string is worth at least any of its prefixes.
proof fn lemma_digits_val_prefix(s: Seq<char>, k: int)
    requires
        all_digits(s),
        0 <= k <= s.len(),
    ensures
        digits_val(s) >= digits_val(s.take(k)),
{
    let rest = s.skip(k);
    assert(s =~= s.take(k) + rest);
    lemma_digits_val_append(s.take(k), rest);
    assert(all_digits(rest));
    lemma_digits_val_nonneg(rest);
    lemma_digits_val_nonneg(s.take(k));
    lemma_pow10_pos(rest.len());
    assert(digits_val(s.take(k)) * pow10(rest.len()) >= digits_val(s.take(k))) by (nonlinear_arith)
        requires
            digits_val(s.take(k)) >= 0,
            pow10(rest.len()) >= 1,
    ;
}

proof fn lemma_dot_pos(s: Seq<char>)
    ensures
        0 <= dot_pos(s) <= s.len(),
        forall|i: int| 0 <= i < dot_pos(s) ==> s[i] != '.',
        dot_pos(s) < s.len() ==> s[dot_pos(s)] == '.',
    decreases s.len(),
{
    if s.len() > 0 && s[0] != '.' {
        lemma_dot_pos(s.drop_first());
        assert forall|i: int| 0 <= i < dot_pos(s) implies s[i] != '.' by {
            if i > 0 {
                assert(s.drop_first()[i - 1] != '.');
                assert(s[i] == s.drop_first()[i - 1]);
            }
        }
    }
}

/// If `'.'` first occurs at `p`, then `dot_pos` is `p`.
proof fn lemma_dot_pos_at(s: Seq<char>, p: int)
    requires
        0 <= p <= s.len(),
        forall|i: int| 0 <= i < p ==> s[i] != '.',
        p < s.len() ==> s[p] == '.',
    ensures
        dot_pos(s) == p,
{
    lemma_dot_pos(s);
    if dot_pos(s) < p {
        assert(s[dot_pos(s)] == '.');
    } else if p < dot_pos(s) {
        assert(s[p] != '.');
    }
}

fn digit_ch(c: char) -> (r: bool)
    ensures
        r == is_digit(c),
{
    '0' <= c && c <= '9'
}

fn digit_of(c: char) -> (r: i64)
    requires
        is_digit(c),
    ensures
        r == digit_val(c),
        0 <= r <= 9,
{
    (c as u32 - 48) as i64
}

/// Parse a decimal numeral. Returns the exact `Px` for every text of
/// the grammar of [`dec_wf`] whose value fits, and `None` for every
/// other text: malformed input is a message-level failure here, never
/// a panic.
pub fn parse_px(s: &str) -> (r: Option<Px>)
    ensures
        r == if px_parses(s@) {
            Some(px_of(s@))
        } else {
            None::<Px>
        },
{
    let n = s.unicode_len();
    let neg = if n > 0 {
        s.get_char(0) == '-'
    } else {
        false
    };
    let off: usize = if neg {
        1
    } else {
        0
    };
    let ghost body = dec_body(s@);
    proof {
        assert(neg == dec_neg(s@));
        assert(body =~= s@.skip(off as int));
        lemma_dot_pos(body);
    }
    let mut i: usize = off;
    let mut acc: i64 = 0;
    while i < n && digit_ch(s.get_char(i))
        invariant
            off <= i <= n,
            n as nat == s@.len(),
            off == if dec_neg(s@) { 1int } else { 0int },
            neg == dec_neg(s@),
            body == dec_body(s@),
            body =~= s@.skip(off as int),
            forall|t: int| off <= t < i ==> is_digit(#[trigger] s@[t]),
            0 <= acc <= i64::MAX,
            acc == digits_val(s@.subrange(off as int, i as int)),
        decreases n - i,
    {
        let c = s.get_char(i);
        let dv = digit_of(c);
        let ghost p = s@.subrange(off as int, i as int + 1);
        proof {
            assert(p.drop_last() =~= s@.subrange(off as int, i as int));
            assert(digits_val(p) == acc * 10 + dv);
        }
        let step = match acc.checked_mul(10) {
            Some(a10) => a10.checked_add(dv),
            None => None,
        };
        match step {
            Some(next) => {
                acc = next;
                i = i + 1;
            },
            None => {
                proof {
                    lemma_int_overflow_not_px(s@, body, off as int, i as int, acc as int, dv as int);
                }
                return None;
            },
        }
    }
    if i == n {
        proof {
            assert forall|t: int| 0 <= t < body.len() implies body[t] != '.' by {
                assert(body[t] == s@[t + off]);
                assert(is_digit(s@[t + off]));
            }
            lemma_dot_pos_at(body, body.len() as int);
        }
        if i == off {
            // no digits at all
            assert(dec_int_digits(s@).len() == 0);
            return None;
        }
        proof {
            assert(dec_int_digits(s@) =~= body);
            assert(dec_frac_digits(s@) =~= Seq::<char>::empty());
            assert(dec_digits(s@) =~= body);
            assert forall|t: int| 0 <= t < body.len() implies is_digit(#[trigger] body[t]) by {
                assert(body[t] == s@[t + off]);
            }
            assert(dec_wf(s@));
            assert(body =~= s@.subrange(off as int, i as int));
            assert(dec_mantissa_abs(s@) == acc);
            assert(dec_scale(s@) == 0);
        }
        let m: i64 = if neg {
            -acc
        } else {
            acc
        };
        return Some(Px { mantissa: m, scale: 0 });
    }
    let c = s.get_char(i);
    if c != '.' {
        proof {
            lemma_stray_char_not_wf(s@, body, off as int, i as int);
        }
        return None;
    }
    // the dot: the digits before it are the integer part
    let ghost d = (i - off) as int;
    proof {
        assert forall|t: int| 0 <= t < d implies body[t] != '.' by {
            assert(body[t] == s@[t + off]);
            assert(is_digit(s@[t + off]));
        }
        assert(body[d] == '.');
        lemma_dot_pos_at(body, d);
    }
    if i == off {
        // no integer digits before the dot
        assert(dec_int_digits(s@).len() == 0);
        return None;
    }
    let ghost ipart = body.take(d);
    proof {
        assert(ipart =~= s@.subrange(off as int, i as int));
        assert(dec_int_digits(s@) == ipart);
    }
    let mut j: usize = i + 1;
    if j == n {
        // a trailing dot with no fraction digits
        assert(dec_frac_digits(s@).len() == 0);
        return None;
    }
    while j < n
        invariant
            i + 1 <= j <= n,
            off <= i < n,
            n as nat == s@.len(),
            off == if dec_neg(s@) { 1int } else { 0int },
            neg == dec_neg(s@),
            body == dec_body(s@),
            body =~= s@.skip(off as int),
            d == i - off,
            dot_pos(body) == d,
            ipart == body.take(d),
            ipart =~= s@.subrange(off as int, i as int),
            dec_int_digits(s@) == ipart,
            forall|t: int| off <= t < i ==> is_digit(#[trigger] s@[t]),
            forall|t: int| i < t < j ==> is_digit(#[trigger] s@[t]),
            0 <= acc <= i64::MAX,
            acc == digits_val(ipart + s@.subrange(i as int + 1, j as int)),
        decreases n - j,
    {
        let c2 = s.get_char(j);
        if !digit_ch(c2) {
            proof {
                assert(dec_frac_digits(s@) == body.skip(d + 1));
                assert(body.skip(d + 1)[j - i - 1] == s@[j as int]);
            }
            return None;
        }
        let dv = digit_of(c2);
        let ghost p = ipart + s@.subrange(i as int + 1, j as int + 1);
        proof {
            assert(p.drop_last() =~= ipart + s@.subrange(i as int + 1, j as int));
            assert(p.last() == s@[j as int]);
            assert(digits_val(p) == acc * 10 + dv);
        }
        let step = match acc.checked_mul(10) {
            Some(a10) => a10.checked_add(dv),
            None => None,
        };
        match step {
            Some(next) => {
                acc = next;
                j = j + 1;
                proof {
                    assert(acc == digits_val(ipart + s@.subrange(i as int + 1, j as int)));
                }
            },
            None => {
                proof {
                    lemma_frac_overflow_not_px(s@, body, off as int, i as int, j as int, acc as int, dv as int);
                }
                return None;
            },
        }
    }
    // the whole fraction was digits
    let ghost fpart = body.skip(d + 1);
    proof {
        assert(fpart =~= s@.subrange(i as int + 1, n as int));
        assert(dec_frac_digits(s@) == fpart);
        assert forall|t: int| 0 <= t < ipart.len() implies is_digit(#[trigger] ipart[t]) by {
            assert(ipart[t] == s@[t + off]);
        }
        assert forall|t: int| 0 <= t < fpart.len() implies is_digit(#[trigger] fpart[t]) by {
            assert(fpart[t] == s@[t + i + 1]);
        }
        assert(dec_wf(s@));
        assert(dec_digits(s@) =~= ipart + s@.subrange(i as int + 1, n as int));
        assert(dec_mantissa_abs(s@) == acc);
        assert(dec_scale(s@) == n - i - 1);
    }
    let scale_len: usize = n - i - 1;
    if scale_len > u32::MAX as usize {
        return None;
    }
    let m: i64 = if neg {
        -acc
    } else {
        acc
    };
    Some(Px { mantissa: m, scale: scale_len as u32 })
}

/// Overflow while reading integer digits: the value cannot fit.
proof fn lemma_int_overflow_not_px(s: Seq<char>, body: Seq<char>, off: int, i: int, acc: int, dv: int)
    requires
        body == dec_body(s),
        body =~= s.skip(off),
        off == if dec_neg(s) { 1int } else { 0int },
        off <= i < s.len(),
        forall|t: int| off <= t < i ==> is_digit(#[trigger] s[t]),
        is_digit(s[i]),
        acc == digits_val(s.subrange(off, i)),
        acc >= 0,
        dv == digit_val(s[i]),
        acc * 10 + dv > i64::MAX,
    ensures
        !px_parses(s),
{
    if dec_wf(s) {
        lemma_dot_pos(body);
        let p = s.subrange(off, i + 1);
        assert(p.drop_last() =~= s.subrange(off, i));
        assert(digits_val(p) == acc * 10 + dv);
        // no dot has been seen, so the dot lies at or after i + 1 - off
        assert forall|t: int| 0 <= t < i + 1 - off implies body[t] != '.' by {
            assert(body[t] == s[t + off]);
            assert(is_digit(s[t + off]));
        }
        if dot_pos(body) < i + 1 - off {
            assert(body[dot_pos(body)] == '.');
            assert(false);
        }
        assert(dec_digits(s).take(i + 1 - off) =~= p);
        lemma_digits_val_prefix(dec_digits(s), i + 1 - off);
        assert(dec_mantissa_abs(s) > i64::MAX);
    }
}

/// Overflow while reading fraction digits: the value cannot fit.
proof fn lemma_frac_overflow_not_px(
    s: Seq<char>,
    body: Seq<char>,
    off: int,
    i: int,
    j: int,
    acc: int,
    dv: int,
)
    requires
        body == dec_body(s),
        body =~= s.skip(off),
        off == if dec_neg(s) { 1int } else { 0int },
        off <= i < s.len(),
        i + 1 <= j < s.len(),
        dot_pos(body) == i - off,
        forall|t: int| off <= t < i ==> is_digit(#[trigger] s[t]),
        forall|t: int| i < t < j ==> is_digit(#[trigger] s[t]),
        is_digit(s[j]),
        acc == digits_val(body.take(i - off) + s.subrange(i + 1, j)),
        acc >= 0,
        dv == digit_val(s[j]),
        acc * 10 + dv > i64::MAX,
    ensures
        !px_parses(s),
{
    if dec_wf(s) {
        let d = i - off;
        let p = body.take(d) + s.subrange(i + 1, j + 1);
        assert(p.drop_last() =~= body.take(d) + s.subrange(i + 1, j));
        assert(p.last() == s[j]);
        assert(digits_val(p) == acc * 10 + dv);
        assert(dec_digits(s) == body.take(d) + body.skip(d + 1));
        assert(dec_digits(s).take(j - off) =~= p);
        lemma_digits_val_prefix(dec_digits(s), j - off);
        assert(dec_mantissa_abs(s) > i64::MAX);
    }
}

/// Division of a non-negative value, rounded half away from zero.
pub open spec fn round_div_pos(a: int, b: int) -> int {
    (a + b / 2) / b
}

/// A decimal count of seconds turned into whole milliseconds, rounded
/// to the nearest millisecond, halves away from zero.
pub open spec fn px_millis(m: int, s: nat) -> int {
    if s <= 3 {
        m * pow10((3 - s) as nat)
    } else if m >= 0 {
        round_div_pos(m, pow10((s - 3) as nat))
    } else {
        -round_div_pos(-m, pow10((s - 3) as nat))
    }
}

/// Scaling a time to milliseconds is monotone: of two times at one
/// scale, the later never yields the smaller millisecond count, so
/// rounding never reorders events of a feed.
pub proof fn lemma_px_millis_monotone(m1: int, m2: int, s: nat)
    requires
        m1 <= m2,
    ensures
        px_millis(m1, s) <= px_millis(m2, s),
{
    if s <= 3 {
        let p = pow10((3 - s) as nat);
        lemma_pow10_pos((3 - s) as nat);
        assert(m1 * p <= m2 * p) by (nonlinear_arith)
            requires
                m1 <= m2,
                p >= 1,
        ;
    } else {
        let b = pow10((s - 3) as nat);
        lemma_pow10_pos((s - 3) as nat);
        if m1 >= 0 {
            vstd::arithmetic::div_mod::lemma_div_is_ordered(m1 + b / 2, m2 + b / 2, b);
        } else if m2 >= 0 {
            vstd::arithmetic::div_mod::lemma_div_pos_is_pos(-m1 + b / 2, b);
            vstd::arithmetic::div_mod::lemma_div_pos_is_pos(m2 + b / 2, b);
        } else {
            vstd::arithmetic::div_mod::lemma_div_is_ordered(-m2 + b / 2, -m1 + b / 2, b);
        }
    }
}

proof fn lemma_pow10_mono(a: nat, b: nat)
    requires
        a <= b,
    ensures
        pow10(a) <= pow10(b),
    decreases b,
{
    if a < b {
        lemma_pow10_mono(a, (b - 1) as nat);
        lemma_pow10_pos((b - 1) as nat);
    }
}

proof fn lemma_pow10_19()
    ensures
        pow10(19) == 10_000_000_000_000_000_000,
{
    reveal_with_fuel(pow10, 21);
}

fn pow10_u64(k: u32) -> (r: u64)
    requires
        k <= 19,
    ensures
        r as int == pow10(k as nat),
{
    let mut r: u64 = 1;
    let mut t: u32 = 0;
    while t < k
        invariant
            t <= k <= 19,
            r as int == pow10(t as nat),
        decreases k - t,
    {
        proof {
            lemma_pow10_19();
            lemma_pow10_mono((t + 1) as nat, 19);
            lemma_pow10_pos(t as nat);
        }
        r = r * 10;
        t = t + 1;
    }
    r
}

/// The exchange event time as integer milliseconds since the epoch,
/// for a time carried as a decimal count of seconds. Rounds to the
/// nearest millisecond, halves away from zero; `None` only when the
/// result cannot fit an `i64`.
pub fn px_event_millis(p: Px) -> (r: Option<i64>)
    ensures
        ({
            let v = px_millis(p.mantissa as int, p.scale as nat);
            r == if i64::MIN <= v && v <= i64::MAX {
                Some(v as i64)
            } else {
                None::<i64>
            }
        }),
{
    if p.scale <= 3 {
        proof {
            reveal_with_fuel(pow10, 4);
        }
        let factor: i64 = if p.scale == 0 {
            1000
        } else if p.scale == 1 {
            100
        } else if p.scale == 2 {
            10
        } else {
            1
        };
        p.mantissa.checked_mul(factor)
    } else {
        let k = p.scale - 3;
        let ghost m = p.mantissa as int;
        let ghost mag_s = if m >= 0 {
            m
        } else {
            -m
        };
        if k > 19 {
            proof {
                lemma_pow10_19();
                lemma_pow10_mono(20, k as nat);
                assert(pow10(20) == 10 * pow10(19));
                let b = pow10(k as nat);
                assert(b >= 100_000_000_000_000_000_000);
                vstd::arithmetic::div_mod::lemma_fundamental_div_mod(b, 2);
                assert(mag_s + b / 2 < b);
                vstd::arithmetic::div_mod::lemma_basic_div(mag_s + b / 2, b);
                assert(round_div_pos(mag_s, b) == 0);
            }
            Some(0)
        } else {
            let b = pow10_u64(k);
            let half = b / 2;
            let mag: u64 = if p.mantissa >= 0 {
                p.mantissa as u64
            } else {
                (-(p.mantissa as i128)) as u64
            };
            proof {
                lemma_pow10_19();
                reveal_with_fuel(pow10, 2);
                lemma_pow10_mono(1, k as nat);
                lemma_pow10_mono(k as nat, 19);
            }
            let q = (mag + half) / b;
            proof {
                assert(q == round_div_pos(mag_s, b as int));
                vstd::arithmetic::div_mod::lemma_fundamental_div_mod((mag + half) as int, b as int);
                assert(q * b <= mag + half);
                assert(10 * q <= q * b) by (nonlinear_arith)
                    requires
                        q >= 0,
                        b >= 10,
                ;
                assert(q <= i64::MAX);
            }
            if p.mantissa >= 0 {
                Some(q as i64)
            } else {
                Some(-(q as i64))
            }
        }
    }
}

/// A character that is neither a digit nor the first dot makes the
/// text malformed.
proof fn lemma_stray_char_not_wf(s: Seq<char>, body: Seq<char>, off: int, i: int)
    requires
        body == dec_body(s),
        body =~= s.skip(off),
        off == if dec_neg(s) { 1int } else { 0int },
        off <= i < s.len(),
        forall|t: int| off <= t < i ==> is_digit(#[trigger] s[t]),
        !is_digit(s[i]),
        s[i] != '.',
    ensures
        !dec_wf(s),
{
    if dec_wf(s) {
        lemma_dot_pos(body);
        let r = i - off;
        assert(body[r] == s[i]);
        if dot_pos(body) > r {
            assert(dec_int_digits(s)[r] == body[r]);
            assert(false);
        } else if dot_pos(body) == r {
            assert(body[r] == '.');
            assert(false);
        } else {
            assert(body[dot_pos(body)] == '.');
            assert(body[dot_pos(body)] == s[dot_pos(body) + off]);
            assert(is_digit(s[dot_pos(body) + off]));
            assert(false);
        }
    }
}

} // verus!
