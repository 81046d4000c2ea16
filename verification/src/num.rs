//! Fixed-point decimal values.
//!
//! Scraped figures such as `$10,000.00` or `(-0.33%)` are decimal numerals;
//! the library keeps them exactly as a sign, an unscaled integer and a scale
//! (the number of fractional digits), so `10000.00` is `(false, 1000000, 2)`.

use vstd::prelude::*;

verus! {

/// A signed decimal number: `value = (-1)^neg * mantissa / 10^scale`.
///
/// The representation keeps the digits exactly as they were written, so
/// `10000.00` (mantissa 1000000, scale 2) is distinct from `10000` and
/// renders back to the same text.
#[derive(Clone, Copy, Debug, PartialEq, Eq, Structural)]
pub struct FixedDec {
    pub neg: bool,
    pub mantissa: u64,
    pub scale: usize,
}

impl FixedDec {
    /// The zero value, used where a metric field could not be parsed.
    pub fn zero() -> (r: FixedDec)
        ensures
            r == (FixedDec { neg: false, mantissa: 0, scale: 0 }),
    {
        FixedDec { neg: false, mantissa: 0, scale: 0 }
    }

    pub fn new(neg: bool, mantissa: u64, scale: usize) -> (r: FixedDec)
        ensures
            r == (FixedDec { neg, mantissa, scale }),
    {
        FixedDec { neg, mantissa, scale }
    }
}

/// `b` is an ASCII decimal digit.
pub open spec fn is_digit(b: u8) -> bool {
    48 <= b <= 57
}

/// Numeric value of one ASCII digit.
pub open spec fn digit_val(b: u8) -> int {
    b - 48
}

/// Every byte of `s` is an ASCII digit.
pub open spec fn all_digits(s: Seq<u8>) -> bool {
    forall|i: int| 0 <= i < s.len() ==> is_digit(#[trigger] s[i])
}

pub open spec fn pow10(n: nat) -> nat
    decreases n,
{
    if n == 0 {
        1
    } else {
        10 * pow10((n - 1) as nat)
    }
}

/// Value of a big-endian digit string: `digits_val(seq![b'1', b'2']) == 12`.
pub open spec fn digits_val(s: Seq<u8>) -> int
    decreases s.len(),
{
    if s.len() == 0 {
        0
    } else {
        digits_val(s.drop_last()) * 10 + digit_val(s.last())
    }
}

pub proof fn lemma_pow10_pos(n: nat)
    ensures
        pow10(n) >= 1,
    decreases n,
{
    if n > 0 {
        lemma_pow10_pos((n - 1) as nat);
    }
}

pub proof fn lemma_digits_val_bounds(s: Seq<u8>)
    requires
        all_digits(s),
    ensures
        0 <= digits_val(s) < pow10(s.len()),
    decreases s.len(),
{
    if s.len() > 0 {
        lemma_digits_val_bounds(s.drop_last());
    }
}

/// Peeling the first digit: `digits_val("d rest") == d * 10^|rest| + digits_val(rest)`.
pub proof fn lemma_digits_val_first(s: Seq<u8>)
    requires
        s.len() > 0,
    ensures
        digits_val(s) == digit_val(s[0]) * pow10((s.len() - 1) as nat) + digits_val(
            s.drop_first(),
        ),
    decreases s.len(),
{
    if s.len() == 1 {
        assert(s.drop_first() =~= Seq::<u8>::empty());
        assert(s.drop_last() =~= Seq::<u8>::empty());
        assert(digits_val(Seq::<u8>::empty()) == 0);
        assert(s.last() == s[0]);
        assert(digits_val(s) == digit_val(s[0]));
        assert(pow10(0) == 1);
        let n1: nat = (s.len() - 1) as nat;
        assert(n1 == 0);
        assert(pow10(n1) == 1);
        assert(digit_val(s[0]) * pow10(n1) == digit_val(s[0])) by (nonlinear_arith)
            requires
                pow10(n1) == 1,
        ;
        assert(digits_val(s) == digit_val(s[0]) * pow10((s.len() - 1) as nat) + digits_val(
            s.drop_first(),
        ));
    } else {
        lemma_digits_val_first(s.drop_last());
        assert(s.drop_last().drop_first() =~= s.drop_first().drop_last());
        assert(s.drop_first().last() == s.last());
        assert(s.drop_last()[0] == s[0]);
        let d0 = digit_val(s[0]);
        let p = pow10((s.len() - 2) as nat);
        let v2 = digits_val(s.drop_last().drop_first());
        let dl = digit_val(s.last());
        assert(digits_val(s.drop_last()) == d0 * p + v2);
        assert(digits_val(s) == (d0 * p + v2) * 10 + dl);
        assert(digits_val(s.drop_first()) == v2 * 10 + dl);
        assert(pow10((s.len() - 1) as nat) == 10 * p);
        assert((d0 * p + v2) * 10 == d0 * (10 * p) + v2 * 10) by (nonlinear_arith);
        assert(digits_val(s) == d0 * pow10((s.len() - 1) as nat) + digits_val(s.drop_first()));
    }
}

/// Concatenation: `digits_val(a + b) == digits_val(a) * 10^|b| + digits_val(b)`.
pub proof fn lemma_digits_val_append(a: Seq<u8>, b: Seq<u8>)
    ensures
        digits_val(a + b) == digits_val(a) * pow10(b.len()) + digits_val(b),
    decreases b.len(),
{
    if b.len() == 0 {
        assert(a + b =~= a);
        assert(b =~= Seq::<u8>::empty());
        assert(digits_val(Seq::<u8>::empty()) == 0);
        assert(pow10(0) == 1);
        assert(digits_val(a) * pow10(b.len()) == digits_val(a)) by (nonlinear_arith)
            requires
                pow10(b.len()) == 1,
        ;
    } else {
        lemma_digits_val_append(a, b.drop_last());
        assert((a + b).drop_last() =~= a + b.drop_last());
        assert((a + b).last() == b.last());
        let va = digits_val(a);
        let p = pow10((b.len() - 1) as nat);
        let vb = digits_val(b.drop_last());
        let dl = digit_val(b.last());
        assert(digits_val(a + b.drop_last()) == va * p + vb);
        assert(digits_val(a + b) == (va * p + vb) * 10 + dl);
        assert(digits_val(b) == vb * 10 + dl);
        assert(pow10(b.len()) == 10 * p);
        assert((va * p + vb) * 10 == va * (10 * p) + vb * 10) by (nonlinear_arith);
        assert(digits_val(a + b) == va * pow10(b.len()) + digits_val(b));
    }
}

/// First index `j >= i` with `s[j] == b`, or `s.len()` if there is none.
pub open spec fn find_byte(s: Seq<u8>, b: u8, i: int) -> int
    decreases s.len() - i,
{
    if i >= s.len() {
        s.len() as int
    } else if s[i] == b {
        i
    } else {
        find_byte(s, b, i + 1)
    }
}

/// If `s[k]` is the first occurrence of `b` at or after `i`, the search finds it.
pub proof fn lemma_find_byte_at(s: Seq<u8>, b: u8, i: int, k: int)
    requires
        0 <= i <= k < s.len(),
        s[k] == b,
        forall|j: int| i <= j < k ==> s[j] != b,
    ensures
        find_byte(s, b, i) == k,
    decreases k - i,
{
    if i < k {
        lemma_find_byte_at(s, b, i + 1, k);
    }
}

/// If `b` does not occur at or after `i`, the search reports the length.
pub proof fn lemma_find_byte_none(s: Seq<u8>, b: u8, i: int)
    requires
        0 <= i <= s.len(),
        forall|j: int| i <= j < s.len() ==> s[j] != b,
    ensures
        find_byte(s, b, i) == s.len(),
    decreases s.len() - i,
{
    if i < s.len() {
        lemma_find_byte_none(s, b, i + 1);
    }
}

/// Searching a suffix is the shifted search of the whole.
pub proof fn lemma_find_byte_shift(s: Seq<u8>, b: u8, from: int, i: int)
    requires
        0 <= from <= s.len(),
        0 <= i <= s.len() - from,
    ensures
        find_byte(s.subrange(from, s.len() as int), b, i) == find_byte(s, b, from + i) - from,
    decreases s.len() - from - i,
{
    let t = s.subrange(from, s.len() as int);
    if i < t.len() && t[i] != b {
        lemma_find_byte_shift(s, b, from, i + 1);
    }
}

fn find_byte_exec(s: &[u8], b: u8, i: usize) -> (r: usize)
    requires
        i <= s@.len(),
    ensures
        r == find_byte(s@, b, i as int),
        i <= r <= s@.len(),
    decreases s@.len() - i,
{
    if i >= s.len() {
        s.len()
    } else if s[i] == b {
        i
    } else {
        find_byte_exec(s, b, i + 1)
    }
}

fn all_digits_exec(s: &[u8], from: usize, to: usize) -> (r: bool)
    requires
        from <= to <= s@.len(),
    ensures
        r == all_digits(s@.subrange(from as int, to as int)),
    decreases to - from,
{
    if from == to {
        true
    } else if s[from] < 48 || s[from] > 57 {
        assert(s@.subrange(from as int, to as int)[0] == s@[from as int]);
        false
    } else {
        let r = all_digits_exec(s, from + 1, to);
        proof {
            let sub = s@.subrange(from as int, to as int);
            let sub1 = s@.subrange(from + 1, to as int);
            assert(sub1 =~= sub.drop_first());
            if r {
                assert forall|i: int| 0 <= i < sub.len() implies is_digit(#[trigger] sub[i]) by {
                    if i > 0 {
                        assert(sub[i] == sub1[i - 1]);
                    }
                }
            } else {
                let w = choose|i: int| 0 <= i < sub1.len() && !is_digit(#[trigger] sub1[i]);
                assert(sub[w + 1] == sub1[w]);
            }
        }
        r
    }
}

/// Folds the digits of `s[from..to]` onto `acc` in base 10; `None` on a value
/// that does not fit in a `u64`.
fn fold_digits(s: &[u8], from: usize, to: usize, acc: u64) -> (r: Option<u64>)
    requires
        from <= to <= s@.len(),
        all_digits(s@.subrange(from as int, to as int)),
    ensures
        ({
            let total = acc * pow10((to - from) as nat) + digits_val(
                s@.subrange(from as int, to as int),
            );
            &&& (r is Some <==> total < 0x1_0000_0000_0000_0000)
            &&& (r is Some ==> r->0 == total)
        }),
    decreases to - from,
{
    let ghost sub = s@.subrange(from as int, to as int);
    if from == to {
        proof {
            assert(sub =~= Seq::<u8>::empty());
            assert(digits_val(Seq::<u8>::empty()) == 0);
            assert(acc * pow10(0) == acc) by (nonlinear_arith)
                requires
                    pow10(0nat) == 1,
            ;
        }
        Some(acc)
    } else {
        assert(is_digit(sub[0]) && sub[0] == s@[from as int]);
        let d = s[from] - 48;
        let limit = (u64::MAX - (d as u64)) / 10;
        proof {
            let n = (to - from) as nat;
            let rest = s@.subrange(from + 1, to as int);
            assert(rest =~= sub.drop_first());
            lemma_digits_val_first(sub);
            lemma_digits_val_bounds(rest);
            lemma_pow10_pos((n - 1) as nat);
            // total(acc, from, to) == total(acc * 10 + d, from + 1, to)
            assert((acc * 10 + d) * pow10((n - 1) as nat) == acc * pow10(n) + d * pow10(
                (n - 1) as nat,
            )) by (nonlinear_arith)
                requires
                    pow10(n) == 10 * pow10((n - 1) as nat),
            ;
        }
        if acc > limit {
            proof {
                let n = (to - from) as nat;
                let rest = s@.subrange(from + 1, to as int);
                let acc2 = acc * 10 + digit_val(s@[from as int]);
                assert(acc2 > u64::MAX);
                assert(acc2 * pow10((n - 1) as nat) >= acc2) by (nonlinear_arith)
                    requires
                        acc2 >= 0 && pow10((n - 1) as nat) >= 1,
                ;
            }
            None
        } else {
            let acc2 = acc * 10 + (d as u64);
            fold_digits(s, from + 1, to, acc2)
        }
    }
}

/// The unscaled value and scale of the digit part of a decimal numeral:
/// integer digits, fractional digits, and the number of the latter.
pub open spec fn dec_mantissa(ip: Seq<u8>, fp: Seq<u8>) -> int {
    digits_val(ip) * pow10(fp.len()) + digits_val(fp)
}

/// Grammar of an unsigned decimal numeral over bytes: digits with at most one
/// point and at least one digit, whose value fits in a `u64`.  Yields the
/// unscaled value and the count of fractional digits.
pub open spec fn dec_digits_parse(t: Seq<u8>) -> Option<(int, int)> {
    let d = find_byte(t, 46, 0);
    if d == t.len() {
        if t.len() > 0 && all_digits(t) && digits_val(t) < 0x1_0000_0000_0000_0000 {
            Some((digits_val(t), 0))
        } else {
            None
        }
    } else {
        let ip = t.subrange(0, d);
        let fp = t.subrange(d + 1, t.len() as int);
        if ip.len() + fp.len() > 0 && all_digits(ip) && all_digits(fp) && dec_mantissa(ip, fp)
            < 0x1_0000_0000_0000_0000 {
            Some((dec_mantissa(ip, fp), fp.len() as int))
        } else {
            None
        }
    }
}

/// Grammar of a signed decimal numeral: an optional `+` or `-` sign followed
/// by digits as in `dec_digits_parse`.  Mirrors what a strict float parse
/// accepts of scraped figures, minus exponents and non-finite forms.
pub open spec fn dec_parse(s: Seq<u8>) -> Option<(bool, int, int)> {
    let neg = s.len() > 0 && s[0] == 45;
    let t = if s.len() > 0 && (s[0] == 45 || s[0] == 43) {
        s.drop_first()
    } else {
        s
    };
    match dec_digits_parse(t) {
        Some((m, sc)) => Some((neg, m, sc)),
        None => None,
    }
}

/// `dec_parse`, packaged as the value the executable parser returns.
pub open spec fn dec_parse_fixed(s: Seq<u8>) -> Option<FixedDec> {
    match dec_parse(s) {
        Some((neg, m, sc)) => Some(FixedDec { neg, mantissa: m as u64, scale: sc as usize }),
        None => None,
    }
}

fn parse_digits_part(s: &[u8], from: usize) -> (r: Option<(u64, usize)>)
    requires
        from <= s@.len(),
    ensures
        ({
            let t = s@.subrange(from as int, s@.len() as int);
            match dec_digits_parse(t) {
                Some((m, sc)) => r matches Some(v) && v.0 == m && v.1 == sc,
                None => r is None,
            }
        }),
{
    let ghost t = s@.subrange(from as int, s@.len() as int);
    let len = s.len();
    let d = find_byte_exec(s, 46, from);
    proof {
        lemma_find_byte_shift(s@, 46, from as int, 0);
        assert(find_byte(t, 46, 0) == d - from);
    }
    if d == len {
        if from < len && all_digits_exec(s, from, len) {
            assert(t =~= s@.subrange(from as int, len as int));
            match fold_digits(s, from, len, 0) {
                Some(m) => {
                    proof {
                        assert(0 * pow10((len - from) as nat) == 0) by (nonlinear_arith);
                    }
                    Some((m, 0))
                },
                None => {
                    proof {
                        assert(0 * pow10((len - from) as nat) == 0) by (nonlinear_arith);
                    }
                    None
                },
            }
        } else {
            None
        }
    } else {
        // integer digits in s[from..d], fractional digits in s[d + 1..len]
        let ghost ip = t.subrange(0, d - from);
        let ghost fp = t.subrange(d - from + 1, t.len() as int);
        proof {
            assert(ip =~= s@.subrange(from as int, d as int));
            assert(fp =~= s@.subrange(d + 1, len as int));
        }
        if (d > from || d + 1 < len) && all_digits_exec(s, from, d) && all_digits_exec(
            s,
            d + 1,
            len,
        ) {
            match fold_digits(s, from, d, 0) {
                Some(mi) => {
                    proof {
                        assert(0 * pow10((d - from) as nat) == 0) by (nonlinear_arith);
                        assert(mi == digits_val(ip));
                    }
                    match fold_digits(s, d + 1, len, mi) {
                        Some(m) => Some((m, len - (d + 1))),
                        None => None,
                    }
                },
                None => {
                    proof {
                        assert(0 * pow10((d - from) as nat) == 0) by (nonlinear_arith);
                        lemma_pow10_pos(fp.len());
                        lemma_digits_val_bounds(fp);
                        assert(digits_val(ip) * pow10(fp.len()) >= digits_val(ip)) by (
                        nonlinear_arith)
                            requires
                                digits_val(ip) >= 0 && pow10(fp.len()) >= 1,
                        ;
                        lemma_digits_val_bounds(ip);
                    }
                    None
                },
            }
        } else {
            None
        }
    }
}

/// Parses a signed decimal numeral such as `-13.68` from bytes.
///
/// Returns `None` exactly when the bytes do not match the decimal grammar or
/// the unscaled value does not fit in a `u64`.
pub fn parse_decimal(s: &[u8]) -> (r: Option<FixedDec>)
    ensures
        r == dec_parse_fixed(s@),
{
    let len = s.len();
    let (neg, start): (bool, usize) = if len > 0 && (s[0] == 45 || s[0] == 43) {
        (s[0] == 45, 1)
    } else {
        (false, 0)
    };
    proof {
        if len > 0 && (s@[0] == 45 || s@[0] == 43) {
            assert(s@.subrange(1, len as int) =~= s@.drop_first());
        } else {
            assert(s@.subrange(0, len as int) =~= s@);
        }
    }
    match parse_digits_part(s, start) {
        Some((m, sc)) => Some(FixedDec { neg, mantissa: m, scale: sc }),
        None => None,
    }
}

/// Digit string of `n` in base 10, most significant first; `"0"` for 0.
pub open spec fn digits_of(n: int) -> Seq<u8>
    decreases n,
{
    if n < 10 {
        seq![(48 + n) as u8]
    } else {
        digits_of(n / 10).push((48 + n % 10) as u8)
    }
}

pub open spec fn zeroes(n: nat) -> Seq<u8> {
    Seq::new(n, |i: int| 48u8)
}

/// The digits of the unscaled value `m` with a point set `scale` places from
/// the right, zero-padded as `0.0…` when `m` has no more than `scale` digits.
pub open spec fn render_mantissa(m: int, scale: int) -> Seq<u8> {
    let ds = digits_of(m);
    if scale <= 0 {
        ds
    } else if ds.len() > scale {
        ds.subrange(0, ds.len() - scale) + seq![46u8] + ds.subrange(
            ds.len() - scale,
            ds.len() as int,
        )
    } else {
        seq![48u8, 46u8] + zeroes((scale - ds.len()) as nat) + ds
    }
}

/// Canonical text of a fixed-point decimal, e.g. `-13.68` or `0.05`.
pub open spec fn render_dec(d: FixedDec) -> Seq<u8> {
    if d.neg {
        seq![45u8] + render_mantissa(d.mantissa as int, d.scale as int)
    } else {
        render_mantissa(d.mantissa as int, d.scale as int)
    }
}

pub proof fn lemma_digits_of(n: int)
    requires
        n >= 0,
    ensures
        all_digits(digits_of(n)),
        digits_of(n).len() >= 1,
        digits_val(digits_of(n)) == n,
    decreases n,
{
    if n < 10 {
        let ds = digits_of(n);
        assert(ds.drop_last() =~= Seq::<u8>::empty());
        assert(digits_val(Seq::<u8>::empty()) == 0);
    } else {
        lemma_digits_of(n / 10);
        let ds = digits_of(n);
        let prev = digits_of(n / 10);
        assert(ds.drop_last() =~= prev);
        assert(ds.last() == (48 + n % 10) as u8);
        assert forall|i: int| 0 <= i < ds.len() implies is_digit(#[trigger] ds[i]) by {
            if i < prev.len() {
                assert(ds[i] == prev[i]);
            }
        }
    }
}

pub proof fn lemma_zeroes(n: nat)
    ensures
        all_digits(zeroes(n)),
        zeroes(n).len() == n,
        digits_val(zeroes(n)) == 0,
    decreases n,
{
    if n == 0 {
        assert(zeroes(n) =~= Seq::<u8>::empty());
        assert(digits_val(Seq::<u8>::empty()) == 0);
    } else {
        lemma_zeroes((n - 1) as nat);
        assert(zeroes(n).drop_last() =~= zeroes((n - 1) as nat));
    }
}

fn push_digits(v: &mut Vec<u8>, n: u64)
    ensures
        final(v)@ == old(v)@ + digits_of(n as int),
    decreases n,
{
    if n < 10 {
        v.push(48 + (n as u8));
        assert(v@ =~= old(v)@ + digits_of(n as int));
    } else {
        push_digits(v, n / 10);
        v.push(48 + ((n % 10) as u8));
        assert(v@ =~= old(v)@ + digits_of(n as int));
    }
}

/// Renders a fixed-point decimal back to its canonical text.
pub fn render_decimal(d: &FixedDec) -> (r: Vec<u8>)
    ensures
        r@ == render_dec(*d),
{
    proof {
        lemma_digits_of(d.mantissa as int);
    }
    let mut ds: Vec<u8> = Vec::new();
    push_digits(&mut ds, d.mantissa);
    assert(ds@ =~= digits_of(d.mantissa as int));
    let mut r: Vec<u8> = Vec::new();
    let ghost sign: Seq<u8> = if d.neg {
        seq![45u8]
    } else {
        Seq::<u8>::empty()
    };
    if d.neg {
        r.push(45);
    }
    assert(r@ =~= sign);
    if d.scale == 0 {
        r.append(&mut ds);
        assert(r@ =~= render_dec(*d));
        r
    } else if ds.len() > d.scale {
        let cut = ds.len() - d.scale;
        let mut j: usize = 0;
        while j < cut
            invariant
                j <= cut <= ds.len(),
                r@ == sign + ds@.subrange(0, j as int),
            decreases cut - j,
        {
            r.push(ds[j]);
            assert(r@ =~= sign + ds@.subrange(0, j + 1));
            j += 1;
        }
        r.push(46);
        let ghost mid = sign + ds@.subrange(0, cut as int) + seq![46u8];
        assert(r@ =~= mid);
        while j < ds.len()
            invariant
                cut <= j <= ds@.len(),
                r@ == mid + ds@.subrange(cut as int, j as int),
            decreases ds@.len() - j,
        {
            r.push(ds[j]);
            assert(r@ =~= mid + ds@.subrange(cut as int, j + 1));
            j += 1;
        }
        assert(r@ =~= render_dec(*d));
        r
    } else {
        r.push(48);
        r.push(46);
        let ghost base = sign + seq![48u8, 46u8];
        assert(r@ =~= base);
        let total = d.scale - ds.len();
        let mut z: usize = 0;
        while z < total
            invariant
                z <= total,
                r@ == base + zeroes(z as nat),
            decreases total - z,
        {
            r.push(48);
            assert(r@ =~= base + zeroes((z + 1) as nat));
            z += 1;
        }
        r.append(&mut ds);
        assert(r@ =~= render_dec(*d));
        r
    }
}

/// Rendering a fixed-point decimal and parsing the text back returns the
/// value unchanged: the canonical text loses nothing.
pub proof fn lemma_dec_roundtrip(d: FixedDec)
    ensures
        dec_parse_fixed(render_dec(d)) == Some(d),
{
    let m = d.mantissa as int;
    let scale = d.scale as int;
    let ds = digits_of(m);
    lemma_digits_of(m);
    let rm = render_mantissa(m, scale);
    let s = render_dec(d);
    // no digit is a sign or a point
    assert(forall|i: int|
        0 <= i < ds.len() ==> ds[i] != 45 && ds[i] != 43 && #[trigger] ds[i] != 46);
    lemma_render_mantissa_parses(m, scale);
    assert(rm.len() > 0);
    if d.neg {
        assert(s =~= seq![45u8] + rm);
        assert(s[0] == 45);
        assert(s.drop_first() =~= rm);
    } else {
        assert(s =~= rm);
        if scale <= 0 || ds.len() > scale {
            assert(is_digit(s[0]));
        } else {
            assert(s[0] == 48);
        }
        assert(s[0] != 45 && s[0] != 43);
    }
}

/// The digit part of the canonical text parses back to `(m, max(scale, 0))`.
proof fn lemma_render_mantissa_parses(m: int, scale: int)
    requires
        0 <= m < 0x1_0000_0000_0000_0000,
    ensures
        render_mantissa(m, scale).len() > 0,
        dec_digits_parse(render_mantissa(m, scale)) == Some(
            (m, if scale >= 0 { scale } else { 0 }),
        ),
{
    let ds = digits_of(m);
    lemma_digits_of(m);
    let rm = render_mantissa(m, scale);
    assert(forall|i: int| 0 <= i < ds.len() ==> #[trigger] ds[i] != 46);
    if scale <= 0 {
        assert(rm =~= ds);
        lemma_find_byte_none(rm, 46, 0);
    } else if ds.len() > scale {
        let cut = ds.len() - scale;
        let a = ds.subrange(0, cut);
        let b = ds.subrange(cut, ds.len() as int);
        assert(rm =~= a + seq![46u8] + b);
        assert(forall|j: int| 0 <= j < cut ==> #[trigger] rm[j] == ds[j]);
        assert(rm[cut] == 46);
        lemma_find_byte_at(rm, 46, 0, cut);
        let ip = rm.subrange(0, cut);
        let fp = rm.subrange(cut + 1, rm.len() as int);
        assert(ip =~= a);
        assert(fp =~= b);
        assert(all_digits(a) && all_digits(b));
        assert(a + b =~= ds);
        lemma_digits_val_append(a, b);
        lemma_digits_val_bounds(a);
        lemma_digits_val_bounds(b);
        assert(dec_mantissa(ip, fp) == m);
    } else {
        let z = (scale - ds.len()) as nat;
        lemma_zeroes(z);
        assert(rm =~= seq![48u8, 46u8] + zeroes(z) + ds);
        assert(rm[0] == 48 && rm[1] == 46);
        assert(forall|j: int| 0 <= j < 1 ==> #[trigger] rm[j] != 46);
        lemma_find_byte_at(rm, 46, 0, 1);
        let ip = rm.subrange(0, 1);
        let fp = rm.subrange(2, rm.len() as int);
        assert(ip =~= seq![48u8]);
        assert(fp =~= zeroes(z) + ds);
        assert(ip.drop_last() =~= Seq::<u8>::empty());
        assert(digits_val(Seq::<u8>::empty()) == 0);
        assert(digits_val(ip) == 0);
        assert(all_digits(ip));
        assert forall|i: int| 0 <= i < fp.len() implies is_digit(#[trigger] fp[i]) by {
            if i < z {
                assert(fp[i] == zeroes(z)[i]);
            } else {
                assert(fp[i] == ds[i - z]);
            }
        }
        lemma_digits_val_append(zeroes(z), ds);
        assert(0 * pow10(ds.len()) == 0) by (nonlinear_arith);
        assert(digits_val(fp) == m);
        assert(0 * pow10(fp.len()) == 0) by (nonlinear_arith);
        assert(dec_mantissa(ip, fp) == m);
        assert(fp.len() == scale);
    }
}

} // verus!
