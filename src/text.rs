use vstd::prelude::*;
use crate::model::{pow10, Decimal};

verus! {

/// The ASCII space that pads header fields.
pub const SPACE: u8 = 32;

pub open spec fn is_digit(c: u8) -> bool {
    48 <= c <= 57
}

/// A field without its leading spaces.
pub open spec fn trim_start(t: Seq<u8>) -> Seq<u8>
    decreases t.len(),
{
    if t.len() > 0 && t[0] == SPACE {
        trim_start(t.drop_first())
    } else {
        t
    }
}

/// A field without its trailing spaces.
pub open spec fn trim_end(t: Seq<u8>) -> Seq<u8>
    decreases t.len(),
{
    if t.len() > 0 && t.last() == SPACE {
        trim_end(t.drop_last())
    } else {
        t
    }
}

/// A field without the spaces that pad it on either side.
pub open spec fn trim(t: Seq<u8>) -> Seq<u8> {
    trim_end(trim_start(t))
}

pub open spec fn all_digits(t: Seq<u8>) -> bool {
    forall|i: int| 0 <= i < t.len() ==> is_digit(#[trigger] t[i])
}

/// The value of a run of decimal digits.
pub open spec fn digits_value(t: Seq<u8>) -> nat
    decreases t.len(),
{
    if t.len() == 0 {
        0
    } else {
        digits_value(t.drop_last()) * 10 + (t.last() - 48) as nat
    }
}

/// An unsigned decimal integer field: digits, padded with spaces.
pub open spec fn unsigned_of(field: Seq<u8>) -> Option<nat> {
    let t = trim(field);
    if t.len() > 0 && all_digits(t) {
        Some(digits_value(t))
    } else {
        None
    }
}

/// Text after an optional leading sign, and whether that sign was a minus.
pub open spec fn unsigned_part(t: Seq<u8>) -> (Seq<u8>, bool) {
    if t.len() > 0 && (t[0] == 45 || t[0] == 43) {
        (t.drop_first(), t[0] == 45)
    } else {
        (t, false)
    }
}

/// A signed decimal integer field that fits in 16 bits.
pub open spec fn signed16_of(field: Seq<u8>) -> Option<int> {
    let (body, neg) = unsigned_part(trim(field));
    if body.len() > 0 && all_digits(body) {
        let v: int = if neg { -digits_value(body) } else { digits_value(body) as int };
        if -32768 <= v <= 32767 {
            Some(v)
        } else {
            None
        }
    } else {
        None
    }
}

/// Digits with at most one decimal point: the value of all the digits, how
/// many digits there are, how many of them follow the point, and whether a
/// point was seen.
pub open spec fn scan_decimal(t: Seq<u8>) -> Option<(nat, nat, nat, bool)>
    decreases t.len(),
{
    if t.len() == 0 {
        Some((0, 0, 0, false))
    } else {
        match scan_decimal(t.drop_last()) {
            None => None,
            Some((v, d, f, dot)) => {
                let c = t.last();
                if is_digit(c) {
                    Some((v * 10 + (c - 48) as nat, d + 1, if dot { f + 1 } else { f }, dot))
                } else if c == 46 && !dot {
                    Some((v, d, f, true))
                } else {
                    None
                }
            },
        }
    }
}

/// A decimal number field (`-200`, `3.25`, `+.5`), as mantissa and
/// exponent: the number is `mantissa / 10^exponent`.
pub open spec fn decimal_of(field: Seq<u8>) -> Option<(int, nat)> {
    let (body, neg) = unsigned_part(trim(field));
    match scan_decimal(body) {
        Some((v, d, f, _)) => if d > 0 {
            Some((if neg { -v } else { v as int }, f))
        } else {
            None
        },
        None => None,
    }
}

/// Once a prefix fails to scan, every longer prefix does.
pub proof fn lemma_scan_prefix_none(t: Seq<u8>, k: int, m: int)
    requires
        0 <= k <= m <= t.len(),
        scan_decimal(t.subrange(0, k)) is None,
    ensures
        scan_decimal(t.subrange(0, m)) is None,
    decreases m - k,
{
    if k < m {
        lemma_scan_prefix_none(t, k, m - 1);
        assert(t.subrange(0, m).drop_last() =~= t.subrange(0, m - 1));
    }
}

pub proof fn lemma_pow10_positive(e: nat)
    ensures
        pow10(e) >= 1,
    decreases e,
{
    if e > 0 {
        lemma_pow10_positive((e - 1) as nat);
    }
}

pub proof fn lemma_pow10_monotone(a: nat, b: nat)
    requires
        a <= b,
    ensures
        pow10(a) <= pow10(b),
    decreases b,
{
    if a < b {
        lemma_pow10_monotone(a, (b - 1) as nat);
        lemma_pow10_positive((b - 1) as nat);
    }
}

pub proof fn lemma_pow10_eight()
    ensures
        pow10(8) == 100000000,
{
    reveal_with_fuel(pow10, 9);
}

/// Bounds of the text of `b[start..end]` once the padding spaces are gone.
pub fn trim_bounds(b: &Vec<u8>, start: usize, end: usize) -> (r: (usize, usize))
    requires
        start <= end <= b@.len(),
    ensures
        start <= r.0 <= r.1 <= end,
        b@.subrange(r.0 as int, r.1 as int) == trim(b@.subrange(start as int, end as int)),
{
    let ghost field = b@.subrange(start as int, end as int);
    let mut lo: usize = start;
    while lo < end && b[lo] == SPACE
        invariant
            start <= lo <= end <= b@.len(),
            trim_start(field) == trim_start(b@.subrange(lo as int, end as int)),
        decreases end - lo,
    {
        assert(b@.subrange(lo as int, end as int).drop_first() =~= b@.subrange(lo + 1, end as int));
        lo += 1;
    }
    assert(trim_start(field) == b@.subrange(lo as int, end as int));
    let mut hi: usize = end;
    while hi > lo && b[hi - 1] == SPACE
        invariant
            start <= lo <= hi <= end <= b@.len(),
            trim(field) == trim_end(b@.subrange(lo as int, hi as int)),
        decreases hi - lo,
    {
        assert(b@.subrange(lo as int, hi as int).drop_last() =~= b@.subrange(lo as int, hi - 1));
        hi -= 1;
    }
    (lo, hi)
}

/// A copy of the text of `b[start..end]` without its padding spaces.
pub fn trimmed_text(b: &Vec<u8>, start: usize, end: usize) -> (r: Vec<u8>)
    requires
        start <= end <= b@.len(),
    ensures
        r@ == trim(b@.subrange(start as int, end as int)),
{
    let (lo, hi) = trim_bounds(b, start, end);
    let mut r: Vec<u8> = Vec::new();
    let mut i: usize = lo;
    while i < hi
        invariant
            lo <= i <= hi <= b@.len(),
            r@ == b@.subrange(lo as int, i as int),
        decreases hi - i,
    {
        r.push(b[i]);
        i += 1;
        assert(r@ =~= b@.subrange(lo as int, i as int));
    }
    r
}

/// The value of the digits `b[lo..hi]`, or `None` where one of them is no
/// digit or there are none.
fn parse_digits(b: &Vec<u8>, lo: usize, hi: usize) -> (r: Option<u64>)
    requires
        lo <= hi <= b@.len(),
        hi - lo <= 8,
    ensures
        r is Some <==> (hi > lo && all_digits(b@.subrange(lo as int, hi as int))),
        r is Some ==> r->0 == digits_value(b@.subrange(lo as int, hi as int)),
        r is Some ==> r->0 < 100000000,
{
    if lo == hi {
        return None;
    }
    let ghost t = b@.subrange(lo as int, hi as int);
    let mut v: u64 = 0;
    let mut i: usize = lo;
    while i < hi
        invariant
            lo <= i <= hi <= b@.len(),
            hi - lo <= 8,
            t == b@.subrange(lo as int, hi as int),
            all_digits(t.subrange(0, i - lo)),
            v == digits_value(t.subrange(0, i - lo)),
            v < pow10((i - lo) as nat),
        decreases hi - i,
    {
        let c = b[i];
        if c < 48 || c > 57 {
            assert(t[i - lo] == c);
            return None;
        }
        proof {
            let k = (i - lo) as int;
            assert(t.subrange(0, k + 1).drop_last() =~= t.subrange(0, k));
            assert(t.subrange(0, k + 1).last() == c);
            lemma_pow10_monotone((k + 1) as nat, 8);
            lemma_pow10_eight();
            assert(v * 10 + (c - 48) < pow10((k + 1) as nat)) by (nonlinear_arith)
                requires
                    v < pow10(k as nat),
                    pow10((k + 1) as nat) == 10 * pow10(k as nat),
                    c - 48 < 10,
            ;
        }
        v = v * 10 + (c - 48) as u64;
        i += 1;
    }
    assert(t.subrange(0, hi - lo) =~= t);
    proof {
        lemma_pow10_monotone((hi - lo) as nat, 8);
        lemma_pow10_eight();
    }
    Some(v)
}

/// Parses an unsigned integer field `b[start..end]` of at most eight bytes.
pub fn parse_unsigned(b: &Vec<u8>, start: usize, end: usize) -> (r: Option<u64>)
    requires
        start <= end <= b@.len(),
        end - start <= 8,
    ensures
        r is Some <==> unsigned_of(b@.subrange(start as int, end as int)) is Some,
        r is Some ==> r->0 == unsigned_of(b@.subrange(start as int, end as int))->0,
        r is Some ==> r->0 < 100000000,
{
    let (lo, hi) = trim_bounds(b, start, end);
    parse_digits(b, lo, hi)
}

/// Bounds of the text of `b[lo..hi]` after an optional sign, and whether
/// that sign is a minus.
fn split_sign(b: &Vec<u8>, lo: usize, hi: usize) -> (r: (usize, bool))
    requires
        lo <= hi <= b@.len(),
    ensures
        lo <= r.0 <= hi,
        b@.subrange(r.0 as int, hi as int) == unsigned_part(b@.subrange(lo as int, hi as int)).0,
        r.1 == unsigned_part(b@.subrange(lo as int, hi as int)).1,
{
    if lo < hi && (b[lo] == 45 || b[lo] == 43) {
        assert(b@.subrange(lo as int, hi as int).drop_first() =~= b@.subrange(lo + 1, hi as int));
        (lo + 1, b[lo] == 45)
    } else {
        (lo, false)
    }
}

/// Parses a signed integer field `b[start..end]` of at most eight bytes
/// whose value fits in 16 bits.
pub fn parse_signed16(b: &Vec<u8>, start: usize, end: usize) -> (r: Option<i64>)
    requires
        start <= end <= b@.len(),
        end - start <= 8,
    ensures
        r is Some <==> signed16_of(b@.subrange(start as int, end as int)) is Some,
        r is Some ==> r->0 == signed16_of(b@.subrange(start as int, end as int))->0,
{
    let (lo, hi) = trim_bounds(b, start, end);
    let (from, neg) = split_sign(b, lo, hi);
    match parse_digits(b, from, hi) {
        None => None,
        Some(u) => {
            let v: i64 = if neg { -(u as i64) } else { u as i64 };
            if -32768 <= v && v <= 32767 {
                Some(v)
            } else {
                None
            }
        },
    }
}

/// Parses a decimal number field `b[start..end]` of at most eight bytes.
pub fn parse_decimal(b: &Vec<u8>, start: usize, end: usize) -> (r: Option<Decimal>)
    requires
        start <= end <= b@.len(),
        end - start <= 8,
    ensures
        r is Some <==> decimal_of(b@.subrange(start as int, end as int)) is Some,
        r is Some ==> r->0.view() == decimal_of(b@.subrange(start as int, end as int))->0,
        r is Some ==> -100000000 < r->0.mantissa < 100000000 && r->0.exponent <= 8,
{
    let (lo, hi) = trim_bounds(b, start, end);
    let (from, neg) = split_sign(b, lo, hi);
    let ghost t = b@.subrange(from as int, hi as int);
    let mut v: u64 = 0;
    let mut d: u32 = 0;
    let mut f: u32 = 0;
    let mut dot: bool = false;
    let mut i: usize = from;
    while i < hi
        invariant
            from <= i <= hi <= b@.len(),
            hi - from <= 8,
            t == b@.subrange(from as int, hi as int),
            t == unsigned_part(trim(b@.subrange(start as int, end as int))).0,
            scan_decimal(t.subrange(0, i - from)) == Some((v as nat, d as nat, f as nat, dot)),
            v < pow10(d as nat),
            f <= d <= i - from,
        decreases hi - i,
    {
        let c = b[i];
        let ghost k = (i - from) as int;
        proof {
            assert(t.subrange(0, k + 1).drop_last() =~= t.subrange(0, k));
            assert(t.subrange(0, k + 1).last() == c);
        }
        if 48 <= c && c <= 57 {
            proof {
                lemma_pow10_monotone((d + 1) as nat, 8);
                lemma_pow10_eight();
                assert(v * 10 + (c - 48) < pow10((d + 1) as nat)) by (nonlinear_arith)
                    requires
                        v < pow10(d as nat),
                        pow10((d + 1) as nat) == 10 * pow10(d as nat),
                        c - 48 < 10,
                ;
            }
            v = v * 10 + (c - 48) as u64;
            d += 1;
            if dot {
                f += 1;
            }
        } else if c == 46 && !dot {
            dot = true;
        } else {
            proof {
                assert(scan_decimal(t.subrange(0, k + 1)) is None);
                lemma_scan_prefix_none(t, k + 1, t.len() as int);
                assert(t.subrange(0, t.len() as int) =~= t);
            }
            return None;
        }
        i += 1;
    }
    assert(t.subrange(0, hi - from) =~= t);
    if d == 0 {
        return None;
    }
    proof {
        lemma_pow10_monotone(d as nat, 8);
        lemma_pow10_eight();
    }
    let m: i64 = if neg { -(v as i64) } else { v as i64 };
    Some(Decimal { mantissa: m, exponent: f })
}

} // verus!
