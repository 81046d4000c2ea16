//! The persisted form of a metrics record: one JSON object with the five
//! metric fields, written wholesale on each successful cycle and read back
//! on startup.
//!
//! The encoder writes one canonical shape — fixed field order, no spaces —
//! and the decoder accepts exactly that shape, so a cache file is either a
//! record this library wrote or rejected.  Decoding what was encoded returns
//! the record unchanged.

use vstd::prelude::*;
use vstd::string::StrSliceExecFns;
use crate::fields::StockMetrics;
use crate::num::{
    dec_parse_fixed, digits_of, is_digit, lemma_dec_roundtrip, lemma_digits_of,
    lemma_zeroes, parse_decimal, render_dec, render_decimal, render_mantissa, zeroes, FixedDec,
};

verus! {

/// The bytes of an ASCII text, character for character.
pub open spec fn str_bytes(s: Seq<char>) -> Seq<u8> {
    Seq::new(s.len(), |i: int| s[i] as u8)
}

/// The canonical persisted text of a record: a JSON object, fields in the
/// declared order, each value a decimal numeral.
pub open spec fn encode_spec(m: StockMetrics) -> Seq<u8> {
    str_bytes("{\"total_holding_value\":"@) + render_dec(m.total_holding_value) + str_bytes(
        ",\"daily_gain_percent_value\":"@,
    ) + render_dec(m.daily_gain_percent_value) + str_bytes(",\"daily_gain_value\":"@) + render_dec(
        m.daily_gain_value,
    ) + str_bytes(",\"total_gain_value\":"@) + render_dec(m.total_gain_value) + str_bytes(
        ",\"total_gain_percent_value\":"@,
    ) + render_dec(m.total_gain_percent_value) + str_bytes("}"@)
}

/// Position after `lit` if `b` carries it at `i`.
pub open spec fn expect_lit(b: Seq<u8>, i: int, lit: Seq<u8>) -> Option<int> {
    if 0 <= i && i + lit.len() <= b.len() && b.subrange(i, i + lit.len()) == lit {
        Some(i + lit.len())
    } else {
        None
    }
}

/// First index `j >= i` holding a comma or a closing brace, or the length:
/// where the value that starts at `i` ends.
pub open spec fn num_end(b: Seq<u8>, i: int) -> int
    decreases b.len() - i,
{
    if i >= b.len() {
        b.len() as int
    } else if b[i] == 44 || b[i] == 125 {
        i
    } else {
        num_end(b, i + 1)
    }
}

/// The decimal value that starts at `i` and runs to the next delimiter,
/// with the position after it.
pub open spec fn read_num(b: Seq<u8>, i: int) -> Option<(FixedDec, int)> {
    let e = num_end(b, i);
    match dec_parse_fixed(b.subrange(i, e)) {
        Some(d) => Some((d, e)),
        None => None,
    }
}

/// What a persisted byte string decodes to: the record, exactly when the
/// bytes have the canonical shape of `encode_spec`, else nothing.
pub open spec fn decode_spec(b: Seq<u8>) -> Option<StockMetrics> {
    match expect_lit(b, 0, str_bytes("{\"total_holding_value\":"@)) {
        None => None,
        Some(i0) => match read_num(b, i0) {
            None => None,
            Some((th, i1)) => match expect_lit(b, i1, str_bytes(",\"daily_gain_percent_value\":"@)) {
                None => None,
                Some(i2) => match read_num(b, i2) {
                    None => None,
                    Some((dgp, i3)) => match expect_lit(b, i3, str_bytes(",\"daily_gain_value\":"@)) {
                        None => None,
                        Some(i4) => match read_num(b, i4) {
                            None => None,
                            Some((dg, i5)) => match expect_lit(
                                b,
                                i5,
                                str_bytes(",\"total_gain_value\":"@),
                            ) {
                                None => None,
                                Some(i6) => match read_num(b, i6) {
                                    None => None,
                                    Some((tg, i7)) => match expect_lit(
                                        b,
                                        i7,
                                        str_bytes(",\"total_gain_percent_value\":"@),
                                    ) {
                                        None => None,
                                        Some(i8) => match read_num(b, i8) {
                                            None => None,
                                            Some((tgp, i9)) => match expect_lit(
                                                b,
                                                i9,
                                                str_bytes("}"@),
                                            ) {
                                                None => None,
                                                Some(i10) => if i10 == b.len() {
                                                    Some(
                                                        StockMetrics {
                                                            total_holding_value: th,
                                                            daily_gain_percent_value: dgp,
                                                            daily_gain_value: dg,
                                                            total_gain_value: tg,
                                                            total_gain_percent_value: tgp,
                                                        },
                                                    )
                                                } else {
                                                    None
                                                },
                                            },
                                        },
                                    },
                                },
                            },
                        },
                    },
                },
            },
        },
    }
}

/// If `s[k]` is the first delimiter at or after `i`, the scan stops there.
proof fn lemma_num_end_at(s: Seq<u8>, i: int, k: int)
    requires
        0 <= i <= k < s.len(),
        s[k] == 44 || s[k] == 125,
        forall|j: int| i <= j < k ==> s[j] != 44 && s[j] != 125,
    ensures
        num_end(s, i) == k,
    decreases k - i,
{
    if i < k {
        lemma_num_end_at(s, i + 1, k);
    }
}

/// Every byte of a rendered decimal is a digit, a sign or a point, so in
/// particular never a comma or a brace.
proof fn lemma_render_dec_bytes(d: FixedDec)
    ensures
        forall|i: int|
            0 <= i < render_dec(d).len() ==> (is_digit(#[trigger] render_dec(d)[i]) || render_dec(
                d,
            )[i] == 45 || render_dec(d)[i] == 46),
{
    let m = d.mantissa as int;
    let scale = d.scale as int;
    lemma_render_mantissa_bytes(m, scale);
    let rm = render_mantissa(m, scale);
    let r = render_dec(d);
    if d.neg {
        assert(r =~= seq![45u8] + rm);
        assert forall|i: int|
            0 <= i < r.len() implies (is_digit(#[trigger] r[i]) || r[i] == 45 || r[i] == 46) by {
            if i > 0 {
                assert(r[i] == rm[i - 1]);
            }
        }
    } else {
        assert(r =~= rm);
    }
}

proof fn lemma_render_mantissa_bytes(m: int, scale: int)
    requires
        m >= 0,
    ensures
        forall|i: int|
            0 <= i < render_mantissa(m, scale).len() ==> (is_digit(
                #[trigger] render_mantissa(m, scale)[i],
            ) || render_mantissa(m, scale)[i] == 46),
{
    let ds = digits_of(m);
    lemma_digits_of(m);
    let rm = render_mantissa(m, scale);
    if scale <= 0 {
        assert(rm =~= ds);
    } else if ds.len() > scale {
        let cut = ds.len() - scale;
        let a = ds.subrange(0, cut);
        let b = ds.subrange(cut, ds.len() as int);
        assert(rm =~= a + seq![46u8] + b);
        assert forall|i: int|
            0 <= i < rm.len() implies (is_digit(#[trigger] rm[i]) || rm[i] == 46) by {
            if i < cut {
                assert(rm[i] == ds[i]);
            } else if i > cut {
                assert(rm[i] == b[i - cut - 1]);
                assert(b[i - cut - 1] == ds[i - 1]);
            }
        }
    } else {
        let z = (scale - ds.len()) as nat;
        lemma_zeroes(z);
        assert(rm =~= seq![48u8, 46u8] + zeroes(z) + ds);
        assert forall|i: int|
            0 <= i < rm.len() implies (is_digit(#[trigger] rm[i]) || rm[i] == 46) by {
            if 2 <= i < 2 + z {
                assert(rm[i] == zeroes(z)[i - 2]);
            } else if i >= 2 + z {
                assert(rm[i] == ds[i - 2 - z]);
            }
        }
    }
}

/// One scan step of the round trip: where a rendered decimal sits at
/// `[i, k)` and a delimiter follows it, the value read at `i` is the decimal
/// and the scan stops at `k`.
proof fn lemma_read_num_at(b: Seq<u8>, i: int, d: FixedDec)
    requires
        0 <= i,
        i + render_dec(d).len() < b.len(),
        b.subrange(i, i + render_dec(d).len() as int) == render_dec(d),
        b[i + render_dec(d).len()] == 44 || b[i + render_dec(d).len()] == 125,
    ensures
        read_num(b, i) == Some((d, i + render_dec(d).len() as int)),
{
    let r = render_dec(d);
    let k = i + r.len();
    lemma_render_dec_bytes(d);
    assert forall|j: int| i <= j < k implies b[j] != 44 && b[j] != 125 by {
        assert(b[j] == b.subrange(i, k)[j - i]);
        assert(is_digit(r[j - i]) || r[j - i] == 45 || r[j - i] == 46);
    }
    lemma_num_end_at(b, i, k);
    lemma_dec_roundtrip(d);
}

/// Decoding what the encoder wrote returns the record unchanged: the
/// persisted text of a record loses nothing.
#[verifier::rlimit(100)]
pub proof fn lemma_codec_roundtrip(m: StockMetrics)
    ensures
        decode_spec(encode_spec(m)) == Some(m),
{
    reveal_strlit("{\"total_holding_value\":");
    reveal_strlit(",\"daily_gain_percent_value\":");
    reveal_strlit(",\"daily_gain_value\":");
    reveal_strlit(",\"total_gain_value\":");
    reveal_strlit(",\"total_gain_percent_value\":");
    reveal_strlit("}");
    let l0 = str_bytes("{\"total_holding_value\":"@);
    let l1 = str_bytes(",\"daily_gain_percent_value\":"@);
    let l2 = str_bytes(",\"daily_gain_value\":"@);
    let l3 = str_bytes(",\"total_gain_value\":"@);
    let l4 = str_bytes(",\"total_gain_percent_value\":"@);
    let l5 = str_bytes("}"@);
    let r0 = render_dec(m.total_holding_value);
    let r1 = render_dec(m.daily_gain_percent_value);
    let r2 = render_dec(m.daily_gain_value);
    let r3 = render_dec(m.total_gain_value);
    let r4 = render_dec(m.total_gain_percent_value);
    let b = encode_spec(m);
    assert(l1[0] == 44 && l2[0] == 44 && l3[0] == 44 && l4[0] == 44 && l5[0] == 125);
    let p0 = l0.len() as int;
    let q0 = p0 + r0.len();
    let p1 = q0 + l1.len();
    let q1 = p1 + r1.len();
    let p2 = q1 + l2.len();
    let q2 = p2 + r2.len();
    let p3 = q2 + l3.len();
    let q3 = p3 + r3.len();
    let p4 = q3 + l4.len();
    let q4 = p4 + r4.len();
    assert(b.len() == q4 + l5.len());
    // where each piece of the text sits
    assert(b.subrange(0, p0) =~= l0);
    assert(b.subrange(p0, q0) =~= r0);
    assert(b.subrange(q0, p1) =~= l1);
    assert(b.subrange(p1, q1) =~= r1);
    assert(b.subrange(q1, p2) =~= l2);
    assert(b.subrange(p2, q2) =~= r2);
    assert(b.subrange(q2, p3) =~= l3);
    assert(b.subrange(p3, q3) =~= r3);
    assert(b.subrange(q3, p4) =~= l4);
    assert(b.subrange(p4, q4) =~= r4);
    assert(b.subrange(q4, b.len() as int) =~= l5);
    // the scan visits exactly those pieces
    assert(expect_lit(b, 0, l0) == Some(p0));
    assert(b[q0] == b.subrange(q0, p1)[0]);
    lemma_read_num_at(b, p0, m.total_holding_value);
    assert(expect_lit(b, q0, l1) == Some(p1));
    assert(b[q1] == b.subrange(q1, p2)[0]);
    lemma_read_num_at(b, p1, m.daily_gain_percent_value);
    assert(expect_lit(b, q1, l2) == Some(p2));
    assert(b[q2] == b.subrange(q2, p3)[0]);
    lemma_read_num_at(b, p2, m.daily_gain_value);
    assert(expect_lit(b, q2, l3) == Some(p3));
    assert(b[q3] == b.subrange(q3, p4)[0]);
    lemma_read_num_at(b, p3, m.total_gain_value);
    assert(expect_lit(b, q3, l4) == Some(p4));
    assert(b[q4] == b.subrange(q4, b.len() as int)[0]);
    lemma_read_num_at(b, p4, m.total_gain_percent_value);
    assert(expect_lit(b, q4, l5) == Some(b.len() as int));
}

pub(crate) fn push_lit(v: &mut Vec<u8>, s: &str)
    requires
        vstd::string::is_ascii(s),
    ensures
        final(v)@ == old(v)@ + str_bytes(s@),
{
    let mut b = s.as_bytes_vec();
    proof {
        broadcast use vstd::string::is_ascii_spec_bytes;

        assert(b@ =~= str_bytes(s@));
    }
    v.append(&mut b);
}

/// Writes a record to its canonical persisted text.
pub fn encode_metrics(m: &StockMetrics) -> (r: Vec<u8>)
    ensures
        r@ == encode_spec(*m),
{
    proof {
        reveal_strlit("{\"total_holding_value\":");
        reveal_strlit(",\"daily_gain_percent_value\":");
        reveal_strlit(",\"daily_gain_value\":");
        reveal_strlit(",\"total_gain_value\":");
        reveal_strlit(",\"total_gain_percent_value\":");
        reveal_strlit("}");
    }
    let mut r: Vec<u8> = Vec::new();
    push_lit(&mut r, "{\"total_holding_value\":");
    let mut v0 = render_decimal(&m.total_holding_value);
    r.append(&mut v0);
    push_lit(&mut r, ",\"daily_gain_percent_value\":");
    let mut v1 = render_decimal(&m.daily_gain_percent_value);
    r.append(&mut v1);
    push_lit(&mut r, ",\"daily_gain_value\":");
    let mut v2 = render_decimal(&m.daily_gain_value);
    r.append(&mut v2);
    push_lit(&mut r, ",\"total_gain_value\":");
    let mut v3 = render_decimal(&m.total_gain_value);
    r.append(&mut v3);
    push_lit(&mut r, ",\"total_gain_percent_value\":");
    let mut v4 = render_decimal(&m.total_gain_percent_value);
    r.append(&mut v4);
    push_lit(&mut r, "}");
    assert(r@ =~= encode_spec(*m));
    r
}

fn expect_lit_exec(b: &[u8], i: usize, lit: &str) -> (r: Option<usize>)
    requires
        vstd::string::is_ascii(lit),
        i <= b@.len(),
    ensures
        ({
            match expect_lit(b@, i as int, str_bytes(lit@)) {
                Some(j) => r matches Some(v) && v == j && v <= b@.len(),
                None => r is None,
            }
        }),
{
    let lv = lit.as_bytes_vec();
    proof {
        broadcast use vstd::string::is_ascii_spec_bytes;

        assert(lv@ =~= str_bytes(lit@));
    }
    let n = lv.len();
    if n > b.len() - i {
        return None;
    }
    let mut j: usize = 0;
    while j < n
        invariant
            j <= n == lv@.len(),
            i + n <= b@.len(),
            i + n <= usize::MAX,
            lv@ == str_bytes(lit@),
            forall|k: int| 0 <= k < j ==> b@[i + k] == lv@[k],
        decreases n - j,
    {
        if b[i + j] != lv[j] {
            proof {
                let sub = b@.subrange(i as int, i + n);
                assert(sub[j as int] != lv@[j as int]);
            }
            return None;
        }
        j += 1;
    }
    proof {
        assert(b@.subrange(i as int, i + n) =~= lv@);
    }
    Some(i + n)
}

fn num_end_exec(b: &[u8], i: usize) -> (r: usize)
    requires
        i <= b@.len(),
    ensures
        r == num_end(b@, i as int),
        i <= r <= b@.len(),
    decreases b@.len() - i,
{
    if i >= b.len() {
        b.len()
    } else if b[i] == 44 || b[i] == 125 {
        i
    } else {
        num_end_exec(b, i + 1)
    }
}

fn read_num_exec(b: &[u8], i: usize) -> (r: Option<(FixedDec, usize)>)
    requires
        i <= b@.len(),
    ensures
        ({
            match read_num(b@, i as int) {
                Some((d, j)) => r matches Some(v) && v.0 == d && v.1 == j && v.1 <= b@.len(),
                None => r is None,
            }
        }),
{
    let e = num_end_exec(b, i);
    let mut tok: Vec<u8> = Vec::new();
    let mut j: usize = i;
    proof {
        assert(b@.subrange(i as int, i as int) =~= Seq::<u8>::empty());
        assert(tok@ =~= b@.subrange(i as int, i as int));
    }
    while j < e
        invariant
            i <= j <= e <= b@.len(),
            tok@ == b@.subrange(i as int, j as int),
        decreases e - j,
    {
        tok.push(b[j]);
        assert(tok@ =~= b@.subrange(i as int, j + 1));
        j += 1;
    }
    match parse_decimal(tok.as_slice()) {
        Some(d) => Some((d, e)),
        None => None,
    }
}

/// Reads a record back from its persisted text; `None` for any byte string
/// that is not the canonical shape `encode_metrics` writes.
pub fn decode_metrics(b: &[u8]) -> (r: Option<StockMetrics>)
    ensures
        r == decode_spec(b@),
{
    proof {
        reveal_strlit("{\"total_holding_value\":");
        reveal_strlit(",\"daily_gain_percent_value\":");
        reveal_strlit(",\"daily_gain_value\":");
        reveal_strlit(",\"total_gain_value\":");
        reveal_strlit(",\"total_gain_percent_value\":");
        reveal_strlit("}");
    }
    let i0 = match expect_lit_exec(b, 0, "{\"total_holding_value\":") {
        Some(i) => i,
        None => return None,
    };
    let (th, i1) = match read_num_exec(b, i0) {
        Some(v) => v,
        None => return None,
    };
    let i2 = match expect_lit_exec(b, i1, ",\"daily_gain_percent_value\":") {
        Some(i) => i,
        None => return None,
    };
    let (dgp, i3) = match read_num_exec(b, i2) {
        Some(v) => v,
        None => return None,
    };
    let i4 = match expect_lit_exec(b, i3, ",\"daily_gain_value\":") {
        Some(i) => i,
        None => return None,
    };
    let (dg, i5) = match read_num_exec(b, i4) {
        Some(v) => v,
        None => return None,
    };
    let i6 = match expect_lit_exec(b, i5, ",\"total_gain_value\":") {
        Some(i) => i,
        None => return None,
    };
    let (tg, i7) = match read_num_exec(b, i6) {
        Some(v) => v,
        None => return None,
    };
    let p8 = match expect_lit_exec(b, i7, ",\"total_gain_percent_value\":") {
        Some(i) => i,
        None => return None,
    };
    let (tgp, i9) = match read_num_exec(b, p8) {
        Some(v) => v,
        None => return None,
    };
    let i10 = match expect_lit_exec(b, i9, "}") {
        Some(i) => i,
        None => return None,
    };
    if i10 == b.len() {
        Some(
            StockMetrics {
                total_holding_value: th,
                daily_gain_percent_value: dgp,
                daily_gain_value: dg,
                total_gain_value: tg,
                total_gain_percent_value: tgp,
            },
        )
    } else {
        None
    }
}

} // verus!
