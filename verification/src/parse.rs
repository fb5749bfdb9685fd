//! Parsing of the height source text: one control point per line, three
//! comma-separated decimal components `x,y,z`.
//!
//! The text is checked in phases, as a whole: first that every byte is
//! text, then that every line has exactly three components, then that
//! every component is a decimal number, and finally that every component
//! is in range.  The first failure of the earliest phase aborts the whole
//! parse; no partial point list is produced.
//!
//! The number grammar is plain sign-digits-point-digits in fixed point;
//! exponent and non-finite forms are not numbers here.

use vstd::prelude::*;
use crate::SCALE;
use crate::grid::{ControlPoint, cp_valid};

verus! {

/// Horizontal whitespace trimmed around components.
pub open spec fn is_space(b: u8) -> bool {
    b == 32 || b == 9 || b == 13
}

/// ASCII decimal digit.
pub open spec fn is_digit(b: u8) -> bool {
    48 <= b <= 57
}

/// A byte that plain point text may contain: printable ASCII or line
/// structure.
pub open spec fn is_text_byte(b: u8) -> bool {
    (32 <= b <= 126) || b == 9 || b == 10 || b == 13
}

/// Split `s` on `sep`: the fields between separators, in order.  An empty
/// input is one empty field; a trailing separator ends with one.
pub open spec fn spec_split(s: Seq<u8>, sep: u8) -> Seq<Seq<u8>>
    decreases s.len(),
{
    if s.len() == 0 {
        seq![s]
    } else if s.last() == sep {
        spec_split(s.drop_last(), sep).push(Seq::empty())
    } else {
        let r = spec_split(s.drop_last(), sep);
        r.update(r.len() - 1, r.last().push(s.last()))
    }
}

/// A split has at least one field.
pub proof fn lemma_split_len(s: Seq<u8>, sep: u8)
    ensures
        spec_split(s, sep).len() >= 1,
    decreases s.len(),
{
    if s.len() > 0 {
        lemma_split_len(s.drop_last(), sep);
    }
}

/// Drop leading spaces.
pub open spec fn trim_start(s: Seq<u8>) -> Seq<u8>
    decreases s.len(),
{
    if s.len() > 0 && is_space(s[0]) {
        trim_start(s.drop_first())
    } else {
        s
    }
}

/// Drop trailing spaces.
pub open spec fn trim_end(s: Seq<u8>) -> Seq<u8>
    decreases s.len(),
{
    if s.len() > 0 && is_space(s.last()) {
        trim_end(s.drop_last())
    } else {
        s
    }
}

/// Drop spaces on both ends.
pub open spec fn spec_trim(s: Seq<u8>) -> Seq<u8> {
    trim_end(trim_start(s))
}

proof fn lemma_trim_start_at(s: Seq<u8>, a: int)
    requires
        0 <= a <= s.len(),
        forall|m: int| 0 <= m < a ==> is_space(#[trigger] s[m]),
        a == s.len() || !is_space(s[a]),
    ensures
        trim_start(s) == s.skip(a),
    decreases a,
{
    if a == 0 {
        assert(s.skip(0) =~= s);
    } else {
        assert(is_space(s[0]));
        lemma_trim_start_at(s.drop_first(), a - 1);
        assert(s.drop_first().skip(a - 1) =~= s.skip(a));
    }
}

proof fn lemma_trim_end_at(s: Seq<u8>, b: int)
    requires
        0 <= b <= s.len(),
        forall|m: int| b <= m < s.len() ==> is_space(#[trigger] s[m]),
        b == 0 || !is_space(s[b - 1]),
    ensures
        trim_end(s) == s.take(b),
    decreases s.len() - b,
{
    if b == s.len() {
        assert(s.take(b) =~= s);
    } else {
        assert(is_space(s.last()));
        lemma_trim_end_at(s.drop_last(), b);
        assert(s.drop_last().take(b) =~= s.take(b));
    }
}

/// Value of a digit string, most significant first (zero when empty).
pub open spec fn digits_value(t: Seq<u8>) -> int
    decreases t.len(),
{
    if t.len() == 0 {
        0
    } else {
        digits_value(t.drop_last()) * 10 + (t.last() - 48)
    }
}

/// Every byte is a digit.
pub open spec fn all_digits(t: Seq<u8>) -> bool {
    forall|i: int| 0 <= i < t.len() ==> is_digit(#[trigger] t[i])
}

/// The component body after an optional sign.
pub open spec fn strip_sign(s: Seq<u8>) -> Seq<u8> {
    if s.len() > 0 && (s[0] == 43 || s[0] == 45) {
        s.drop_first()
    } else {
        s
    }
}

/// `-1` for a leading minus, else `1`.
pub open spec fn sign_of(s: Seq<u8>) -> int {
    if s.len() > 0 && s[0] == 45 {
        -1
    } else {
        1
    }
}

/// A decimal body: digits, or digits around exactly one point, with at
/// least one digit in all.
pub open spec fn is_decimal_body(t: Seq<u8>) -> bool {
    ||| (t.len() >= 1 && all_digits(t))
    ||| (t.len() >= 2 && exists|k: int|
        0 <= k < t.len() && #[trigger] t[k] == 46 && all_digits(t.take(k)) && all_digits(
            t.skip(k + 1),
        ))
}

/// A decimal component: optional sign, then a decimal body.
pub open spec fn is_decimal(s: Seq<u8>) -> bool {
    is_decimal_body(strip_sign(s))
}

/// Value of the first three fraction digits in milli-units.
pub open spec fn frac3_value(f: Seq<u8>) -> int {
    if f.len() >= 3 {
        digits_value(f.take(3))
    } else if f.len() == 2 {
        digits_value(f) * 10
    } else if f.len() == 1 {
        digits_value(f) * 100
    } else {
        0
    }
}

/// Value of a decimal body in milli-units, the fraction truncated after
/// three digits.
pub open spec fn decimal_body_value(t: Seq<u8>) -> int {
    if all_digits(t) {
        digits_value(t) * 1000
    } else {
        let k = choose|k: int| 0 <= k < t.len() && #[trigger] t[k] == 46;
        digits_value(t.take(k)) * 1000 + frac3_value(t.skip(k + 1))
    }
}

/// Signed value of a decimal component in milli-units.
pub open spec fn decimal_value(s: Seq<u8>) -> int {
    sign_of(s) * decimal_body_value(strip_sign(s))
}

/// In a valid dotted decomposition the point position is unique.
proof fn lemma_dot_unique(t: Seq<u8>, k: int, k2: int)
    requires
        0 <= k < t.len(),
        t[k] == 46,
        all_digits(t.take(k)),
        all_digits(t.skip(k + 1)),
        0 <= k2 < t.len(),
        t[k2] == 46,
    ensures
        k2 == k,
{
    if k2 < k {
        assert(t.take(k)[k2] == t[k2]);
    } else if k2 > k {
        assert(t.skip(k + 1)[k2 - k - 1] == t[k2]);
    }
}

/// Split `data[lo..hi]` on `sep`, returning the field boundaries:
/// half-open index ranges into `data`, one per field of the
/// specification-level split.
fn split_ranges(data: &[u8], lo: usize, hi: usize, sep: u8) -> (r: Vec<(usize, usize)>)
    requires
        lo <= hi <= data@.len(),
    ensures
        r@.len() == spec_split(data@.subrange(lo as int, hi as int), sep).len(),
        forall|k: int|
            0 <= k < r@.len() ==> lo <= (#[trigger] r@[k]).0 <= r@[k].1 <= hi,
        forall|k: int|
            0 <= k < r@.len() ==> data@.subrange((#[trigger] r@[k]).0 as int, r@[k].1 as int)
                == spec_split(data@.subrange(lo as int, hi as int), sep)[k],
{
    let mut ranges: Vec<(usize, usize)> = Vec::new();
    let mut cur: usize = lo;
    let mut i: usize = lo;
    proof {
        assert(data@.subrange(lo as int, lo as int) =~= Seq::<u8>::empty());
    }
    while i < hi
        invariant
            lo <= cur <= i <= hi <= data@.len(),
            ranges@.len() == spec_split(data@.subrange(lo as int, i as int), sep).len() - 1,
            forall|k: int|
                0 <= k < ranges@.len() ==> lo <= (#[trigger] ranges@[k]).0 <= ranges@[k].1 <= i,
            forall|k: int|
                0 <= k < ranges@.len() ==> data@.subrange(
                    (#[trigger] ranges@[k]).0 as int,
                    ranges@[k].1 as int,
                ) == spec_split(data@.subrange(lo as int, i as int), sep)[k],
            data@.subrange(cur as int, i as int) == spec_split(
                data@.subrange(lo as int, i as int),
                sep,
            ).last(),
        decreases hi - i,
    {
        let b = data[i];
        proof {
            lemma_split_len(data@.subrange(lo as int, i as int), sep);
            assert(data@.subrange(lo as int, i as int + 1) =~= data@.subrange(
                lo as int,
                i as int,
            ).push(data@[i as int]));
            assert(data@.subrange(lo as int, i as int + 1).drop_last() =~= data@.subrange(
                lo as int,
                i as int,
            ));
        }
        if b == sep {
            ranges.push((cur, i));
            cur = i + 1;
            proof {
                assert(data@.subrange(cur as int, i as int + 1) =~= Seq::<u8>::empty());
            }
        } else {
            proof {
                assert(data@.subrange(cur as int, i as int + 1) =~= data@.subrange(
                    cur as int,
                    i as int,
                ).push(data@[i as int]));
                let sp = spec_split(data@.subrange(lo as int, i as int), sep);
                let sp2 = spec_split(data@.subrange(lo as int, i as int + 1), sep);
                assert(sp2 == sp.update(sp.len() - 1, sp.last().push(data@[i as int])));
                assert forall|k: int|
                    0 <= k < ranges@.len() implies data@.subrange(
                    (#[trigger] ranges@[k]).0 as int,
                    ranges@[k].1 as int,
                ) == sp2[k] by {
                    assert(sp2[k] == sp[k]);
                }
            }
        }
        i = i + 1;
    }
    ranges.push((cur, hi));
    proof {
        lemma_split_len(data@.subrange(lo as int, hi as int), sep);
    }
    ranges
}

/// Digit strings have non-negative values.
proof fn lemma_digits_nonneg(t: Seq<u8>)
    requires
        all_digits(t),
    ensures
        digits_value(t) >= 0,
    decreases t.len(),
{
    if t.len() > 0 {
        assert(all_digits(t.drop_last())) by {
            assert(forall|i: int|
                0 <= i < t.len() - 1 ==> #[trigger] t.drop_last()[i] == t[i]);
        }
        lemma_digits_nonneg(t.drop_last());
    }
}



/// Whitespace test on a byte.
fn is_space_b(b: u8) -> (r: bool)
    ensures
        r == is_space(b),
{
    b == 32 || b == 9 || b == 13
}

/// Find the trimmed extent of `data[cs..ce]`.
fn trim_range(data: &[u8], cs: usize, ce: usize) -> (r: (usize, usize))
    requires
        cs <= ce <= data@.len(),
    ensures
        cs <= r.0 <= r.1 <= ce,
        spec_trim(data@.subrange(cs as int, ce as int)) == data@.subrange(
            r.0 as int,
            r.1 as int,
        ),
{
    let ghost s0 = data@.subrange(cs as int, ce as int);
    let mut lo = cs;
    while lo < ce && is_space_b(data[lo])
        invariant
            cs <= lo <= ce <= data@.len(),
            forall|m: int| cs <= m < lo ==> is_space(#[trigger] data@[m]),
        decreases ce - lo,
    {
        lo = lo + 1;
    }
    let mut hi = ce;
    while hi > lo && is_space_b(data[hi - 1])
        invariant
            cs <= lo <= hi <= ce <= data@.len(),
            forall|m: int| cs <= m < lo ==> is_space(#[trigger] data@[m]),
            lo == ce || !is_space(data@[lo as int]),
            forall|m: int| hi <= m < ce ==> is_space(#[trigger] data@[m]),
        decreases hi,
    {
        hi = hi - 1;
    }
    proof {
        assert forall|m: int| 0 <= m < lo - cs implies is_space(#[trigger] s0[m]) by {
            assert(s0[m] == data@[cs + m]);
        }
        if lo < ce {
            assert(s0[lo - cs] == data@[lo as int]);
        }
        lemma_trim_start_at(s0, lo - cs);
        let u = s0.skip(lo - cs);
        assert(u =~= data@.subrange(lo as int, ce as int));
        assert forall|m: int| hi - lo <= m < u.len() implies is_space(#[trigger] u[m]) by {
            assert(u[m] == data@[lo + m]);
        }
        if hi > lo {
            assert(u[hi - lo - 1] == data@[hi as int - 1]);
        }
        lemma_trim_end_at(u, hi - lo);
        assert(u.take(hi - lo) =~= data@.subrange(lo as int, hi as int));
    }
    (lo, hi)
}

/// Structure of a component body.
enum Scan {
    /// Not a decimal body.
    Bad,
    /// Digits only.
    Plain,
    /// Digits around one decimal point at this index.
    Dotted(usize),
}

/// Classify the bytes of `data[b0..hi]` as a decimal body.
fn scan_body(data: &[u8], b0: usize, hi: usize) -> (r: Scan)
    requires
        b0 < hi <= data@.len(),
    ensures
        ({
            let body = data@.subrange(b0 as int, hi as int);
            match r {
                Scan::Bad => !is_decimal_body(body),
                Scan::Plain => all_digits(body) && body.len() >= 1 && is_decimal_body(body),
                Scan::Dotted(d) => {
                    &&& b0 <= d < hi
                    &&& data@[d as int] == 46
                    &&& all_digits(body.take(d - b0))
                    &&& all_digits(body.skip(d - b0 + 1))
                    &&& body.len() >= 2
                    &&& !all_digits(body)
                    &&& is_decimal_body(body)
                },
            }
        }),
{
    let ghost body = data@.subrange(b0 as int, hi as int);
    let mut p = b0;
    let mut dot: usize = hi;
    while p < hi
        invariant
            b0 <= p <= hi <= data@.len(),
            b0 < hi,
            body == data@.subrange(b0 as int, hi as int),
            dot == hi || (b0 <= dot < p && data@[dot as int] == 46),
            dot == hi ==> all_digits(data@.subrange(b0 as int, p as int)),
            dot < hi ==> all_digits(data@.subrange(b0 as int, dot as int)) && all_digits(
                data@.subrange(dot as int + 1, p as int),
            ),
        decreases hi - p,
    {
        let b = data[p];
        if b == 46 {
            if dot != hi {
                proof {
                    let k1 = dot - b0;
                    let k2 = p - b0;
                    assert(body[k1] == 46);
                    assert(body[k2] == 46);
                    assert(!is_digit(46));
                    assert(!all_digits(body));
                    if is_decimal_body(body) {
                        let k = choose|k: int|
                            0 <= k < body.len() && #[trigger] body[k] == 46 && all_digits(
                                body.take(k),
                            ) && all_digits(body.skip(k + 1));
                        lemma_dot_unique(body, k, k1);
                        lemma_dot_unique(body, k, k2);
                    }
                }
                return Scan::Bad;
            }
            dot = p;
        } else if b < 48 || b > 57 {
            proof {
                let kb = p - b0;
                assert(body[kb] == b);
                assert(!is_digit(b) && b != 46);
                assert(!all_digits(body));
                if is_decimal_body(body) {
                    let k = choose|k: int|
                        0 <= k < body.len() && #[trigger] body[k] == 46 && all_digits(
                            body.take(k),
                        ) && all_digits(body.skip(k + 1));
                    if kb < k {
                        assert(body.take(k)[kb] == body[kb]);
                    } else if kb > k {
                        assert(body.skip(k + 1)[kb - k - 1] == body[kb]);
                    }
                }
            }
            return Scan::Bad;
        } else {
            proof {
                assert(data@.subrange(b0 as int, p as int + 1).drop_last() =~= data@.subrange(
                    b0 as int,
                    p as int,
                ));
                if dot != hi {
                    assert(data@.subrange(dot as int + 1, p as int + 1).drop_last()
                        =~= data@.subrange(dot as int + 1, p as int));
                }
                assert(is_digit(b));
            }
        }
        p = p + 1;
    }
    if dot == hi {
        proof {
            assert(body =~= data@.subrange(b0 as int, hi as int));
            assert(all_digits(body));
        }
        Scan::Plain
    } else if dot == b0 && b0 + 1 == hi {
        proof {
            assert(body.len() == 1);
            assert(body[0] == 46);
            assert(!is_digit(46));
            assert(!all_digits(body));
        }
        Scan::Bad
    } else {
        proof {
            let k = dot as int - b0 as int;
            assert(body[k] == 46);
            assert(body.take(k) =~= data@.subrange(b0 as int, dot as int));
            assert(body.skip(k + 1) =~= data@.subrange(dot as int + 1, hi as int));
            assert(body.len() >= 2);
            assert(is_decimal_body(body));
            assert(!is_digit(46));
            assert(!all_digits(body));
        }
        Scan::Dotted(dot)
    }
}

/// Accumulate the integer digits of `data[b0..iend]`; the flag reports a
/// value past every coordinate bound instead of the exact value.
fn read_int_digits(data: &[u8], b0: usize, iend: usize) -> (r: (i64, bool))
    requires
        b0 <= iend <= data@.len(),
        all_digits(data@.subrange(b0 as int, iend as int)),
    ensures
        !r.1 ==> r.0 == digits_value(data@.subrange(b0 as int, iend as int)) && 0 <= r.0 <= 10,
        r.1 ==> digits_value(data@.subrange(b0 as int, iend as int)) > 10,
{
    let mut ival: i64 = 0;
    let mut huge = false;
    let mut q = b0;
    while q < iend
        invariant
            b0 <= q <= iend <= data@.len(),
            all_digits(data@.subrange(b0 as int, iend as int)),
            huge ==> digits_value(data@.subrange(b0 as int, q as int)) > 10,
            !huge ==> ival == digits_value(data@.subrange(b0 as int, q as int)) && 0 <= ival <= 10,
        decreases iend - q,
    {
        proof {
            assert(data@.subrange(b0 as int, q as int + 1).drop_last() =~= data@.subrange(
                b0 as int,
                q as int,
            ));
            assert(data@.subrange(b0 as int, iend as int)[q - b0] == data@[q as int]);
        }
        let d = (data[q] - 48) as i64;
        if !huge {
            let v2 = 10 * ival + d;
            if v2 > 10 {
                huge = true;
            } else {
                ival = v2;
            }
        }
        q = q + 1;
    }
    (ival, huge)
}

/// Value of the first three fraction digits of `data[f0..hi]`, padded to
/// milli-units.
fn frac3_exec(data: &[u8], f0: usize, hi: usize) -> (v: i64)
    requires
        f0 <= hi <= data@.len(),
        all_digits(data@.subrange(f0 as int, hi as int)),
    ensures
        v == frac3_value(data@.subrange(f0 as int, hi as int)),
        0 <= v <= 999,
{
    let ghost fpart = data@.subrange(f0 as int, hi as int);
    let flen = hi - f0;
    proof {
        reveal_with_fuel(digits_value, 5);
    }
    if flen == 0 {
        0
    } else if flen == 1 {
        proof {
            assert(fpart[0] == data@[f0 as int]);
            assert(is_digit(data@[f0 as int]));
            assert(fpart =~= seq![data@[f0 as int]]);
            assert(fpart.drop_last() =~= Seq::<u8>::empty());
        }
        (data[f0] - 48) as i64 * 100
    } else if flen == 2 {
        proof {
            assert(fpart[0] == data@[f0 as int]);
            assert(fpart[1] == data@[f0 as int + 1]);
            assert(is_digit(data@[f0 as int]));
            assert(is_digit(data@[f0 as int + 1]));
            assert(fpart =~= seq![data@[f0 as int], data@[f0 as int + 1]]);
            assert(fpart.drop_last() =~= seq![data@[f0 as int]]);
            assert(fpart.drop_last().drop_last() =~= Seq::<u8>::empty());
        }
        let d0 = (data[f0] - 48) as i64;
        let d1 = (data[f0 + 1] - 48) as i64;
        d0 * 100 + d1 * 10
    } else {
        proof {
            let t3 = fpart.take(3);
            assert(fpart[0] == data@[f0 as int]);
            assert(fpart[1] == data@[f0 as int + 1]);
            assert(fpart[2] == data@[f0 as int + 2]);
            assert(is_digit(data@[f0 as int]));
            assert(is_digit(data@[f0 as int + 1]));
            assert(is_digit(data@[f0 as int + 2]));
            assert(t3 =~= seq![data@[f0 as int], data@[f0 as int + 1], data@[f0 as int + 2]]);
            assert(t3.drop_last() =~= seq![data@[f0 as int], data@[f0 as int + 1]]);
            assert(t3.drop_last().drop_last() =~= seq![data@[f0 as int]]);
            assert(t3.drop_last().drop_last().drop_last() =~= Seq::<u8>::empty());
        }
        let d0 = (data[f0] - 48) as i64;
        let d1 = (data[f0 + 1] - 48) as i64;
        let d2 = (data[f0 + 2] - 48) as i64;
        d0 * 100 + d1 * 10 + d2
    }
}

/// Outcome of reading one component.
enum Parsed {
    /// Not a decimal number at all.
    NotNumeric,
    /// A decimal with this exact milli-unit value.
    Value(i64),
    /// A decimal whose magnitude exceeds every valid coordinate; the flag
    /// records the sign.
    Huge(bool),
}

/// Read the component in `data[cs..ce]`: trim it, then parse an optional
/// sign and a decimal body, truncating the fraction after three digits.
fn parse_component(data: &[u8], cs: usize, ce: usize) -> (r: Parsed)
    requires
        cs <= ce <= data@.len(),
    ensures
        ({
            let t = spec_trim(data@.subrange(cs as int, ce as int));
            match r {
                Parsed::NotNumeric => !is_decimal(t),
                Parsed::Value(v) => is_decimal(t) && v == decimal_value(t) && -10999 <= v <= 10999,
                Parsed::Huge(neg) => is_decimal(t) && (if neg {
                    decimal_value(t) <= -11000
                } else {
                    decimal_value(t) >= 11000
                }),
            }
        }),
{
    let (lo, hi) = trim_range(data, cs, ce);
    let ghost t = data@.subrange(lo as int, hi as int);
    if lo == hi {
        return Parsed::NotNumeric;
    }
    let first = data[lo];
    let neg = first == 45;
    let b0: usize = if first == 43 || first == 45 {
        lo + 1
    } else {
        lo
    };
    let ghost body = data@.subrange(b0 as int, hi as int);
    proof {
        if b0 > lo {
            assert(body =~= t.drop_first());
        } else {
            assert(body =~= t);
        }
        assert(strip_sign(t) == body);
        assert(sign_of(t) == (if neg { -1int } else { 1int }));
    }
    if b0 == hi {
        return Parsed::NotNumeric;
    }
    let sc = scan_body(data, b0, hi);
    let (int_end, has_dot): (usize, bool) = match sc {
        Scan::Bad => {
            return Parsed::NotNumeric;
        },
        Scan::Plain => (hi, false),
        Scan::Dotted(d) => (d, true),
    };
    proof {
        if has_dot {
            assert(body.take(int_end - b0) =~= data@.subrange(b0 as int, int_end as int));
        } else {
            assert(body =~= data@.subrange(b0 as int, int_end as int));
        }
    }
    let (ival, huge) = read_int_digits(data, b0, int_end);
    let fval: i64 = if has_dot {
        proof {
            assert(body.skip(int_end - b0 + 1) =~= data@.subrange(int_end as int + 1, hi as int));
        }
        frac3_exec(data, int_end + 1, hi)
    } else {
        0
    };
    let ghost intpart = data@.subrange(b0 as int, int_end as int);
    let ghost fpart = if has_dot {
        data@.subrange(int_end as int + 1, hi as int)
    } else {
        Seq::<u8>::empty()
    };
    proof {
        if !has_dot {
            assert(decimal_body_value(body) == digits_value(intpart) * 1000) by {
                assert(intpart =~= body);
            }
            assert(frac3_value(fpart) == 0);
        } else {
            let k = int_end as int - b0 as int;
            assert(!all_digits(body));
            let kc = choose|kk: int| 0 <= kk < body.len() && #[trigger] body[kk] == 46;
            assert(body[k] == 46);
            lemma_dot_unique(body, k, kc);
            assert(body.take(k) =~= intpart);
            assert(body.skip(k + 1) =~= fpart);
            assert(decimal_body_value(body) == digits_value(intpart) * 1000 + frac3_value(fpart));
        }
        lemma_digits_nonneg(intpart);
    }
    if huge {
        proof {
            assert(decimal_body_value(body) >= 11 * 1000);
        }
        return Parsed::Huge(neg);
    }
    let v = ival * 1000 + fval;
    proof {
        assert(decimal_body_value(body) == v);
        assert(is_decimal(t));
    }
    if neg {
        Parsed::Value(-v)
    } else {
        Parsed::Value(v)
    }
}

/// The lines of the input, split on newline.
pub open spec fn spec_lines(s: Seq<u8>) -> Seq<Seq<u8>> {
    spec_split(s, 10)
}

/// The comma-separated components of one line.
pub open spec fn comps(l: Seq<u8>) -> Seq<Seq<u8>> {
    spec_split(l, 44)
}

/// Every byte of the line is plain text.
pub open spec fn line_text_ok(l: Seq<u8>) -> bool {
    forall|i: int| 0 <= i < l.len() ==> is_text_byte(#[trigger] l[i])
}

/// The line has exactly three components.
pub open spec fn line_has_3(l: Seq<u8>) -> bool {
    comps(l).len() == 3
}

/// Component `j` of the line, trimmed, is a decimal number.
pub open spec fn comp_num_ok(l: Seq<u8>, j: int) -> bool {
    is_decimal(spec_trim(comps(l)[j]))
}

/// Milli-unit value of component `j` of the line.
pub open spec fn comp_val(l: Seq<u8>, j: int) -> int {
    decimal_value(spec_trim(comps(l)[j]))
}

/// All three components of the line are decimal numbers.
pub open spec fn line_numeric(l: Seq<u8>) -> bool {
    comp_num_ok(l, 0) && comp_num_ok(l, 1) && comp_num_ok(l, 2)
}

/// Component `j` of the line is inside its axis range: `y` in
/// `[0, SCALE]`, `x` and `z` in `[-SCALE, SCALE]`.
pub open spec fn comp_range_ok(l: Seq<u8>, j: int) -> bool {
    if j == 1 {
        0 <= comp_val(l, 1) <= SCALE
    } else {
        -(SCALE as int) <= comp_val(l, j) <= SCALE
    }
}

/// All three components of the line are in range.
pub open spec fn line_ranges_ok(l: Seq<u8>) -> bool {
    comp_range_ok(l, 0) && comp_range_ok(l, 1) && comp_range_ok(l, 2)
}

/// The control point a valid line denotes.
pub open spec fn line_point(l: Seq<u8>) -> ControlPoint {
    ControlPoint { x: comp_val(l, 0) as i64, y: comp_val(l, 1) as i64, z: comp_val(l, 2) as i64 }
}

/// Every line of the input is plain text.
pub open spec fn all_lines_text(s: Seq<u8>) -> bool {
    forall|i: int| 0 <= i < spec_lines(s).len() ==> line_text_ok(#[trigger] spec_lines(s)[i])
}

/// Every line of the input has three components.
pub open spec fn all_lines_3(s: Seq<u8>) -> bool {
    forall|i: int| 0 <= i < spec_lines(s).len() ==> line_has_3(#[trigger] spec_lines(s)[i])
}

/// Every component of every line is a decimal number.
pub open spec fn all_lines_numeric(s: Seq<u8>) -> bool {
    forall|i: int| 0 <= i < spec_lines(s).len() ==> line_numeric(#[trigger] spec_lines(s)[i])
}

/// Every component of every line is in range.
pub open spec fn all_lines_ranged(s: Seq<u8>) -> bool {
    forall|i: int| 0 <= i < spec_lines(s).len() ==> line_ranges_ok(#[trigger] spec_lines(s)[i])
}

/// The whole input parses into control points.
pub open spec fn parse_ok(s: Seq<u8>) -> bool {
    all_lines_text(s) && all_lines_3(s) && all_lines_numeric(s) && all_lines_ranged(s)
}

/// A structured parse failure; each variant carries the offending text.
#[derive(Clone, PartialEq, Eq, Debug)]
pub enum Error {
    /// A line holds a byte that plain point text cannot.
    UnableConvertFileToString { name: Vec<u8> },
    /// A line does not have exactly three comma-separated components.
    PointDoesNotHave3Components { name: Vec<u8> },
    /// A component is not a decimal number.
    ComponentIsNotNumeric { name: Vec<u8> },
    /// The `x` component is outside `[-1, 1]`.
    ComponentXNotValid { name: Vec<u8> },
    /// The `y` component is outside `[0, 1]`.
    ComponentYNotValid { name: Vec<u8> },
    /// The `z` component is outside `[-1, 1]`.
    ComponentZNotValid { name: Vec<u8> },
}

/// The first non-text line of the input, with its content.
pub open spec fn err_bad_text(s: Seq<u8>, name: Seq<u8>) -> bool {
    exists|i: int|
        {
            &&& 0 <= i < spec_lines(s).len()
            &&& !line_text_ok(#[trigger] spec_lines(s)[i])
            &&& name == spec_lines(s)[i]
            &&& forall|k: int| 0 <= k < i ==> line_text_ok(#[trigger] spec_lines(s)[k])
        }
}

/// The first line without three components, with its content.
pub open spec fn err_bad_shape(s: Seq<u8>, name: Seq<u8>) -> bool {
    &&& all_lines_text(s)
    &&& exists|i: int|
        {
            &&& 0 <= i < spec_lines(s).len()
            &&& !line_has_3(#[trigger] spec_lines(s)[i])
            &&& name == spec_lines(s)[i]
            &&& forall|k: int| 0 <= k < i ==> line_has_3(#[trigger] spec_lines(s)[k])
        }
}

/// The first non-numeric component in reading order, with its untrimmed
/// content.
pub open spec fn err_bad_number(s: Seq<u8>, name: Seq<u8>) -> bool {
    &&& all_lines_text(s)
    &&& all_lines_3(s)
    &&& exists|i: int, j: int|
        {
            &&& 0 <= i < spec_lines(s).len()
            &&& 0 <= j < 3
            &&& !comp_num_ok(spec_lines(s)[i], j)
            &&& name == #[trigger] comps(spec_lines(s)[i])[j]
            &&& forall|k: int| 0 <= k < i ==> line_numeric(#[trigger] spec_lines(s)[k])
            &&& forall|j2: int| 0 <= j2 < j ==> comp_num_ok(spec_lines(s)[i], j2)
        }
}

/// The first out-of-range component in reading order sits on axis `j`;
/// `name` is its trimmed content.
pub open spec fn err_bad_range(s: Seq<u8>, name: Seq<u8>, j: int) -> bool {
    &&& all_lines_text(s)
    &&& all_lines_3(s)
    &&& all_lines_numeric(s)
    &&& exists|i: int|
        {
            &&& 0 <= i < spec_lines(s).len()
            &&& !comp_range_ok(#[trigger] spec_lines(s)[i], j)
            &&& name == spec_trim(comps(spec_lines(s)[i])[j])
            &&& forall|k: int| 0 <= k < i ==> line_ranges_ok(#[trigger] spec_lines(s)[k])
            &&& forall|j2: int| 0 <= j2 < j ==> comp_range_ok(spec_lines(s)[i], j2)
        }
}

proof fn lemma_witness_bad_text(s: Seq<u8>, name: Seq<u8>, i: int)
    requires
        0 <= i < spec_lines(s).len(),
        !line_text_ok(spec_lines(s)[i]),
        name == spec_lines(s)[i],
        forall|k: int| 0 <= k < i ==> line_text_ok(#[trigger] spec_lines(s)[k]),
    ensures
        err_bad_text(s, name),
{
}

proof fn lemma_witness_bad_shape(s: Seq<u8>, name: Seq<u8>, i: int)
    requires
        all_lines_text(s),
        0 <= i < spec_lines(s).len(),
        !line_has_3(spec_lines(s)[i]),
        name == spec_lines(s)[i],
        forall|k: int| 0 <= k < i ==> line_has_3(#[trigger] spec_lines(s)[k]),
    ensures
        err_bad_shape(s, name),
{
}

proof fn lemma_witness_bad_number(s: Seq<u8>, name: Seq<u8>, i: int, j: int)
    requires
        all_lines_text(s),
        all_lines_3(s),
        0 <= i < spec_lines(s).len(),
        0 <= j < 3,
        !comp_num_ok(spec_lines(s)[i], j),
        name == comps(spec_lines(s)[i])[j],
        forall|k: int| 0 <= k < i ==> line_numeric(#[trigger] spec_lines(s)[k]),
        forall|j2: int| 0 <= j2 < j ==> comp_num_ok(spec_lines(s)[i], j2),
    ensures
        err_bad_number(s, name),
{
}

proof fn lemma_witness_bad_range(s: Seq<u8>, name: Seq<u8>, i: int, j: int)
    requires
        all_lines_text(s),
        all_lines_3(s),
        all_lines_numeric(s),
        0 <= i < spec_lines(s).len(),
        0 <= j < 3,
        !comp_range_ok(spec_lines(s)[i], j),
        name == spec_trim(comps(spec_lines(s)[i])[j]),
        forall|k: int| 0 <= k < i ==> line_ranges_ok(#[trigger] spec_lines(s)[k]),
        forall|j2: int| 0 <= j2 < j ==> comp_range_ok(spec_lines(s)[i], j2),
    ensures
        err_bad_range(s, name, j),
{
}

/// Parse the height source text: one `x,y,z` point per line.  The phases
/// run over the whole input in order — text check, component count,
/// numeric check, range check — and the first failure of the earliest
/// phase aborts the parse with the offending text; on success every line
/// yields one valid control point.
pub fn parse_points(data: &[u8]) -> (r: Result<Vec<ControlPoint>, Error>)
    ensures
        ({
            let s = data@;
            match r {
                Ok(ps) => {
                    &&& parse_ok(s)
                    &&& ps@.len() == spec_lines(s).len()
                    &&& forall|i: int|
                        0 <= i < ps@.len() ==> #[trigger] ps@[i] == line_point(spec_lines(s)[i])
                    &&& forall|i: int| 0 <= i < ps@.len() ==> cp_valid(#[trigger] ps@[i])
                },
                Err(e) => match e {
                    Error::UnableConvertFileToString { name } => err_bad_text(s, name@),
                    Error::PointDoesNotHave3Components { name } => err_bad_shape(s, name@),
                    Error::ComponentIsNotNumeric { name } => err_bad_number(s, name@),
                    Error::ComponentXNotValid { name } => err_bad_range(s, name@, 0),
                    Error::ComponentYNotValid { name } => err_bad_range(s, name@, 1),
                    Error::ComponentZNotValid { name } => err_bad_range(s, name@, 2),
                },
            }
        }),
{
    let n = data.len();
    proof {
        assert(data@.subrange(0, n as int) =~= data@);
    }
    let lines = split_ranges(data, 0, n, 10);
    let ghost ls = spec_lines(data@);
    let nl = lines.len();

    // phase 1: every byte of every line is text
    let mut li: usize = 0;
    while li < nl
        invariant
            nl == lines@.len(),
            nl == ls.len(),
            ls == spec_lines(data@),
            forall|k: int| 0 <= k < nl ==> 0 <= (#[trigger] lines@[k]).0 <= lines@[k].1 <= data@.len(),
            forall|k: int|
                0 <= k < nl ==> data@.subrange(
                    (#[trigger] lines@[k]).0 as int,
                    lines@[k].1 as int,
                ) == ls[k],
            li <= nl,
            forall|k: int| 0 <= k < li ==> line_text_ok(#[trigger] ls[k]),
        decreases nl - li,
    {
        let (s, e) = lines[li];
        let ghost line = ls[li as int];
        let mut p = s;
        while p < e
            invariant
                s <= p <= e <= data@.len(),
                line == data@.subrange(s as int, e as int),
                nl == ls.len(),
                ls == spec_lines(data@),
                li < nl,
                line == ls[li as int],
                forall|k: int| 0 <= k < li ==> line_text_ok(#[trigger] ls[k]),
                forall|m: int| s <= m < p ==> is_text_byte(#[trigger] data@[m]),
            decreases e - p,
        {
            let b = data[p];
            if !(b == 9 || b == 10 || b == 13 || (32 <= b && b <= 126)) {
                let name = vstd::slice::slice_to_vec(vstd::slice::slice_subrange(data, s, e));
                proof {
                    assert(line[p - s] == data@[p as int]);
                    assert(!line_text_ok(line));
                    lemma_witness_bad_text(data@, name@, li as int);
                }
                return Err(Error::UnableConvertFileToString { name });
            }
            p = p + 1;
        }
        proof {
            assert forall|m: int| 0 <= m < line.len() implies is_text_byte(#[trigger] line[m]) by {
                assert(line[m] == data@[s + m]);
            }
        }
        li = li + 1;
    }

    // phase 2: every line has exactly three components
    li = 0;
    while li < nl
        invariant
            nl == lines@.len(),
            nl == ls.len(),
            ls == spec_lines(data@),
            all_lines_text(data@),
            forall|k: int| 0 <= k < nl ==> 0 <= (#[trigger] lines@[k]).0 <= lines@[k].1 <= data@.len(),
            forall|k: int|
                0 <= k < nl ==> data@.subrange(
                    (#[trigger] lines@[k]).0 as int,
                    lines@[k].1 as int,
                ) == ls[k],
            li <= nl,
            forall|k: int| 0 <= k < li ==> line_has_3(#[trigger] ls[k]),
        decreases nl - li,
    {
        let (s, e) = lines[li];
        let cr = split_ranges(data, s, e, 44);
        if cr.len() != 3 {
            let name = vstd::slice::slice_to_vec(vstd::slice::slice_subrange(data, s, e));
            proof {
                lemma_witness_bad_shape(data@, name@, li as int);
            }
            return Err(Error::PointDoesNotHave3Components { name });
        }
        li = li + 1;
    }

    // phase 3: every component is a decimal number
    li = 0;
    while li < nl
        invariant
            nl == lines@.len(),
            nl == ls.len(),
            ls == spec_lines(data@),
            all_lines_text(data@),
            all_lines_3(data@),
            forall|k: int| 0 <= k < nl ==> 0 <= (#[trigger] lines@[k]).0 <= lines@[k].1 <= data@.len(),
            forall|k: int|
                0 <= k < nl ==> data@.subrange(
                    (#[trigger] lines@[k]).0 as int,
                    lines@[k].1 as int,
                ) == ls[k],
            li <= nl,
            forall|k: int| 0 <= k < li ==> line_numeric(#[trigger] ls[k]),
        decreases nl - li,
    {
        let (s, e) = lines[li];
        let cr = split_ranges(data, s, e, 44);
        let ghost line = ls[li as int];
        let mut j: usize = 0;
        while j < 3
            invariant
                nl == lines@.len(),
                nl == ls.len(),
                li < nl,
                line == ls[li as int],
                ls == spec_lines(data@),
                all_lines_3(data@),
                cr@.len() == 3,
                comps(line).len() == 3,
                all_lines_text(data@),
                forall|k: int| 0 <= k < li ==> line_numeric(#[trigger] ls[k]),
                forall|k: int| 0 <= k < 3 ==> 0 <= (#[trigger] cr@[k]).0 <= cr@[k].1 <= data@.len(),
                forall|k: int|
                    0 <= k < 3 ==> data@.subrange(
                        (#[trigger] cr@[k]).0 as int,
                        cr@[k].1 as int,
                    ) == comps(line)[k],
                j <= 3,
                forall|j2: int| 0 <= j2 < j ==> comp_num_ok(line, j2),
            decreases 3 - j,
        {
            let (cs, ce) = cr[j];
            match parse_component(data, cs, ce) {
                Parsed::NotNumeric => {
                    let name = vstd::slice::slice_to_vec(
                        vstd::slice::slice_subrange(data, cs, ce),
                    );
                    proof {
                        lemma_witness_bad_number(data@, name@, li as int, j as int);
                    }
                    return Err(Error::ComponentIsNotNumeric { name });
                },
                _ => {},
            }
            j = j + 1;
        }
        li = li + 1;
    }

    // phase 4: range checks, and the points themselves
    let mut pts: Vec<ControlPoint> = Vec::new();
    li = 0;
    while li < nl
        invariant
            nl == lines@.len(),
            nl == ls.len(),
            ls == spec_lines(data@),
            all_lines_text(data@),
            all_lines_3(data@),
            all_lines_numeric(data@),
            forall|k: int| 0 <= k < nl ==> 0 <= (#[trigger] lines@[k]).0 <= lines@[k].1 <= data@.len(),
            forall|k: int|
                0 <= k < nl ==> data@.subrange(
                    (#[trigger] lines@[k]).0 as int,
                    lines@[k].1 as int,
                ) == ls[k],
            li <= nl,
            pts@.len() == li,
            forall|k: int| 0 <= k < li ==> line_ranges_ok(#[trigger] ls[k]),
            forall|k: int| 0 <= k < li ==> #[trigger] pts@[k] == line_point(ls[k]),
            forall|k: int| 0 <= k < li ==> cp_valid(#[trigger] pts@[k]),
        decreases nl - li,
    {
        let (s, e) = lines[li];
        let cr = split_ranges(data, s, e, 44);
        let ghost line = ls[li as int];
        proof {
            assert(line_numeric(line));
        }
        let (c0s, c0e) = cr[0];
        let (c1s, c1e) = cr[1];
        let (c2s, c2e) = cr[2];
        let v0: i64 = match parse_component(data, c0s, c0e) {
            Parsed::Value(v) => v,
            Parsed::Huge(ng) => {
                let t = trim_range(data, c0s, c0e);
                let name = vstd::slice::slice_to_vec(
                    vstd::slice::slice_subrange(data, t.0, t.1),
                );
                proof {
                    lemma_witness_bad_range(data@, name@, li as int, 0);
                }
                return Err(Error::ComponentXNotValid { name });
            },
            Parsed::NotNumeric => {
                proof {
                    assert(false);
                }
                vstd::pervasive::unreached()
            },
        };
        if v0 < -(SCALE as i64) || v0 > SCALE as i64 {
            let t = trim_range(data, c0s, c0e);
            let name = vstd::slice::slice_to_vec(vstd::slice::slice_subrange(data, t.0, t.1));
            proof {
                lemma_witness_bad_range(data@, name@, li as int, 0);
            }
            return Err(Error::ComponentXNotValid { name });
        }
        let v1: i64 = match parse_component(data, c1s, c1e) {
            Parsed::Value(v) => v,
            Parsed::Huge(ng) => {
                let t = trim_range(data, c1s, c1e);
                let name = vstd::slice::slice_to_vec(
                    vstd::slice::slice_subrange(data, t.0, t.1),
                );
                proof {
                    lemma_witness_bad_range(data@, name@, li as int, 1);
                }
                return Err(Error::ComponentYNotValid { name });
            },
            Parsed::NotNumeric => {
                proof {
                    assert(false);
                }
                vstd::pervasive::unreached()
            },
        };
        if v1 < 0 || v1 > SCALE as i64 {
            let t = trim_range(data, c1s, c1e);
            let name = vstd::slice::slice_to_vec(vstd::slice::slice_subrange(data, t.0, t.1));
            proof {
                lemma_witness_bad_range(data@, name@, li as int, 1);
            }
            return Err(Error::ComponentYNotValid { name });
        }
        let v2: i64 = match parse_component(data, c2s, c2e) {
            Parsed::Value(v) => v,
            Parsed::Huge(ng) => {
                let t = trim_range(data, c2s, c2e);
                let name = vstd::slice::slice_to_vec(
                    vstd::slice::slice_subrange(data, t.0, t.1),
                );
                proof {
                    lemma_witness_bad_range(data@, name@, li as int, 2);
                }
                return Err(Error::ComponentZNotValid { name });
            },
            Parsed::NotNumeric => {
                proof {
                    assert(false);
                }
                vstd::pervasive::unreached()
            },
        };
        if v2 < -(SCALE as i64) || v2 > SCALE as i64 {
            let t = trim_range(data, c2s, c2e);
            let name = vstd::slice::slice_to_vec(vstd::slice::slice_subrange(data, t.0, t.1));
            proof {
                lemma_witness_bad_range(data@, name@, li as int, 2);
            }
            return Err(Error::ComponentZNotValid { name });
        }
        pts.push(ControlPoint { x: v0, y: v1, z: v2 });
        li = li + 1;
    }
    Ok(pts)
}

} // verus!
