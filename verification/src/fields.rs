//! From scraped text fragments to typed metrics.
//!
//! One scrape attempt yields up to three text fragments, one per page
//! location.  Each of the five metric fields is read independently from its
//! fragment: split on whitespace, take the token at a fixed position, trim a
//! fixed set of decorative characters, drop thousands separators, and parse
//! the rest as a decimal numeral.  A field whose fragment is missing or whose
//! token is absent or malformed is simply unparsed; only when all five fields
//! are unparsed does the attempt carry no usable data.

use vstd::prelude::*;
use crate::num::{dec_parse_fixed, parse_decimal, FixedDec};

verus! {

/// ASCII whitespace, the separators a whitespace split breaks on.
pub open spec fn is_ws(b: u8) -> bool {
    b == 32 || (9 <= b <= 13)
}

/// First index `j >= i` that is not whitespace, or the length.
pub open spec fn skip_ws(s: Seq<u8>, i: int) -> int
    decreases s.len() - i,
{
    if i >= s.len() {
        s.len() as int
    } else if is_ws(s[i]) {
        skip_ws(s, i + 1)
    } else {
        i
    }
}

/// First index `j >= i` that is whitespace, or the length.
pub open spec fn skip_tok(s: Seq<u8>, i: int) -> int
    decreases s.len() - i,
{
    if i >= s.len() {
        s.len() as int
    } else if !is_ws(s[i]) {
        skip_tok(s, i + 1)
    } else {
        i
    }
}

/// Bounds of the `n`-th whitespace-separated token at or after `i`.
pub open spec fn nth_token(s: Seq<u8>, i: int, n: nat) -> Option<(int, int)>
    decreases n,
{
    let a = skip_ws(s, i);
    if a >= s.len() {
        None
    } else if n == 0 {
        Some((a, skip_tok(s, a)))
    } else {
        nth_token(s, skip_tok(s, a), (n - 1) as nat)
    }
}

/// First index in `[a, b)` whose byte is outside `set`, or `b`.
pub open spec fn trim_start(s: Seq<u8>, set: Seq<u8>, a: int, b: int) -> int
    decreases b - a,
{
    if a >= b {
        b
    } else if set.contains(s[a]) {
        trim_start(s, set, a + 1, b)
    } else {
        a
    }
}

/// Last bound in `(a, b]` whose preceding byte is outside `set`, or `a`.
pub open spec fn trim_end(s: Seq<u8>, set: Seq<u8>, a: int, b: int) -> int
    decreases b - a,
{
    if b <= a {
        a
    } else if set.contains(s[b - 1]) {
        trim_end(s, set, a, b - 1)
    } else {
        b
    }
}

/// The sequence with every comma removed, as a thousands-separator strip.
pub open spec fn strip_commas(s: Seq<u8>) -> Seq<u8>
    decreases s.len(),
{
    if s.len() == 0 {
        Seq::<u8>::empty()
    } else if s.last() == 44 {
        strip_commas(s.drop_last())
    } else {
        strip_commas(s.drop_last()).push(s.last())
    }
}

/// The cleaned-up text of token `index` of a fragment: trimmed at both ends
/// of the decorative `trim` characters, commas removed.
pub open spec fn token_clean(s: Seq<u8>, index: nat, trim: Seq<u8>) -> Option<Seq<u8>> {
    match nth_token(s, 0, index) {
        None => None,
        Some((a, b)) => {
            let a2 = trim_start(s, trim, a, b);
            let b2 = trim_end(s, trim, a2, b);
            Some(strip_commas(s.subrange(a2, b2)))
        },
    }
}

/// What one metric field reads from its optional fragment: `None` when the
/// fragment is absent, the token is absent, or the cleaned token is not a
/// decimal numeral.
pub open spec fn parse_value_spec(text: Option<Seq<u8>>, index: nat, trim: Seq<u8>) -> Option<
    FixedDec,
> {
    match text {
        None => None,
        Some(s) => match token_clean(s, index, trim) {
            None => None,
            Some(t) => dec_parse_fixed(t),
        },
    }
}

fn skip_ws_exec(s: &[u8], i: usize) -> (r: usize)
    requires
        i <= s@.len(),
    ensures
        r == skip_ws(s@, i as int),
        i <= r <= s@.len(),
    decreases s@.len() - i,
{
    if i >= s.len() {
        s.len()
    } else if s[i] == 32 || (9 <= s[i] && s[i] <= 13) {
        skip_ws_exec(s, i + 1)
    } else {
        i
    }
}

fn skip_tok_exec(s: &[u8], i: usize) -> (r: usize)
    requires
        i <= s@.len(),
    ensures
        r == skip_tok(s@, i as int),
        i <= r <= s@.len(),
    decreases s@.len() - i,
{
    if i >= s.len() {
        s.len()
    } else if !(s[i] == 32 || (9 <= s[i] && s[i] <= 13)) {
        skip_tok_exec(s, i + 1)
    } else {
        i
    }
}

fn nth_token_exec(s: &[u8], i: usize, n: usize) -> (r: Option<(usize, usize)>)
    requires
        i <= s@.len(),
    ensures
        ({
            match nth_token(s@, i as int, n as nat) {
                None => r is None,
                Some((a, b)) => r matches Some(v) && v.0 == a && v.1 == b && i <= v.0 <= v.1
                    <= s@.len(),
            }
        }),
    decreases n,
{
    let a = skip_ws_exec(s, i);
    if a >= s.len() {
        None
    } else if n == 0 {
        let b = skip_tok_exec(s, a);
        Some((a, b))
    } else {
        let b = skip_tok_exec(s, a);
        nth_token_exec(s, b, n - 1)
    }
}

fn in_set(set: &[u8], i: usize, b: u8) -> (r: bool)
    requires
        i <= set@.len(),
    ensures
        r == exists|j: int| i <= j < set@.len() && set@[j] == b,
    decreases set@.len() - i,
{
    if i >= set.len() {
        false
    } else if set[i] == b {
        true
    } else {
        in_set(set, i + 1, b)
    }
}

fn contains_byte(set: &[u8], b: u8) -> (r: bool)
    ensures
        r == set@.contains(b),
{
    let r = in_set(set, 0, b);
    proof {
        if set@.contains(b) {
            let j = choose|j: int| 0 <= j < set@.len() && set@[j] == b;
            assert(exists|j: int| 0 <= j < set@.len() && set@[j] == b);
        }
    }
    r
}

fn trim_start_exec(s: &[u8], set: &[u8], a: usize, b: usize) -> (r: usize)
    requires
        a <= b <= s@.len(),
    ensures
        r == trim_start(s@, set@, a as int, b as int),
        a <= r <= b,
    decreases b - a,
{
    if a >= b {
        b
    } else if contains_byte(set, s[a]) {
        trim_start_exec(s, set, a + 1, b)
    } else {
        a
    }
}

fn trim_end_exec(s: &[u8], set: &[u8], a: usize, b: usize) -> (r: usize)
    requires
        a <= b <= s@.len(),
    ensures
        r == trim_end(s@, set@, a as int, b as int),
        a <= r <= b,
    decreases b - a,
{
    if b <= a {
        a
    } else if contains_byte(set, s[b - 1]) {
        trim_end_exec(s, set, a, b - 1)
    } else {
        b
    }
}

/// Reads one metric field from an optional fragment, as `parse_value_spec`
/// says: token `index`, trimmed of the `trim` characters, commas dropped,
/// parsed as a decimal numeral.
pub fn parse_value(text: Option<&[u8]>, index: usize, trim: &[u8]) -> (r: Option<FixedDec>)
    ensures
        ({
            let t = match text {
                Some(s) => Some(s@),
                None => None,
            };
            r == parse_value_spec(t, index as nat, trim@)
        }),
{
    match text {
        None => None,
        Some(s) => {
            match nth_token_exec(s, 0, index) {
                None => None,
                Some((a, b)) => {
                    let a2 = trim_start_exec(s, trim, a, b);
                    let b2 = trim_end_exec(s, trim, a2, b);
                    let mut clean: Vec<u8> = Vec::new();
                    let mut i: usize = a2;
                    proof {
                        assert(s@.subrange(a2 as int, a2 as int) =~= Seq::<u8>::empty());
                    }
                    while i < b2
                        invariant
                            a2 <= i <= b2 <= s@.len(),
                            clean@ == strip_commas(s@.subrange(a2 as int, i as int)),
                        decreases b2 - i,
                    {
                        if s[i] != 44 {
                            clean.push(s[i]);
                        }
                        proof {
                            assert(s@.subrange(a2 as int, i + 1).drop_last() =~= s@.subrange(
                                a2 as int,
                                i as int,
                            ));
                            assert(s@.subrange(a2 as int, i + 1).last() == s@[i as int]);
                        }
                        i += 1;
                    }
                    parse_decimal(clean.as_slice())
                },
            }
        },
    }
}

/// The raw text of one scrape attempt: one optional fragment per page
/// location, in the fixed order holding value, daily gain, total gain.
/// Each slot is independently optional; the set lives only for one cycle.
pub struct RawFieldSet {
    pub total_holding: Option<Vec<u8>>,
    pub daily_gain: Option<Vec<u8>>,
    pub total_gain: Option<Vec<u8>>,
}

/// One full reading of the portfolio: five decimal metrics, always all
/// present; a field that could not be parsed holds zero.
#[derive(Clone, Copy, Debug, PartialEq, Eq, Structural)]
pub struct StockMetrics {
    pub total_holding_value: FixedDec,
    pub daily_gain_percent_value: FixedDec,
    pub daily_gain_value: FixedDec,
    pub total_gain_value: FixedDec,
    pub total_gain_percent_value: FixedDec,
}

/// A scrape attempt where all five fields are unparsed carries no usable
/// data; the cycle is discarded rather than stored.
#[derive(Clone, Copy, Debug, PartialEq, Eq, Structural)]
pub enum ParseError {
    NoUsableData,
}

/// Trim set of a money token: the dollar sign and the comma.
pub open spec fn money_trim() -> Seq<u8> {
    seq![36u8, 44u8]
}

/// Trim set of a percentage token: parentheses and the percent sign.
pub open spec fn percent_trim() -> Seq<u8> {
    seq![40u8, 37u8, 41u8]
}

pub open spec fn frag_view(f: Option<Vec<u8>>) -> Option<Seq<u8>> {
    match f {
        Some(v) => Some(v@),
        None => None,
    }
}

pub open spec fn spec_total_holding(r: RawFieldSet) -> Option<FixedDec> {
    parse_value_spec(frag_view(r.total_holding), 0, money_trim())
}

pub open spec fn spec_daily_gain(r: RawFieldSet) -> Option<FixedDec> {
    parse_value_spec(frag_view(r.daily_gain), 0, money_trim())
}

pub open spec fn spec_daily_gain_percent(r: RawFieldSet) -> Option<FixedDec> {
    parse_value_spec(frag_view(r.daily_gain), 1, percent_trim())
}

pub open spec fn spec_total_gain(r: RawFieldSet) -> Option<FixedDec> {
    parse_value_spec(frag_view(r.total_gain), 0, money_trim())
}

pub open spec fn spec_total_gain_percent(r: RawFieldSet) -> Option<FixedDec> {
    parse_value_spec(frag_view(r.total_gain), 1, percent_trim())
}

/// At least one of the five fields parses: the attempt has usable data.
pub open spec fn any_field_parses(r: RawFieldSet) -> bool {
    ||| spec_total_holding(r) is Some
    ||| spec_daily_gain(r) is Some
    ||| spec_daily_gain_percent(r) is Some
    ||| spec_total_gain(r) is Some
    ||| spec_total_gain_percent(r) is Some
}

pub open spec fn or_zero(f: Option<FixedDec>) -> FixedDec {
    match f {
        Some(d) => d,
        None => FixedDec { neg: false, mantissa: 0, scale: 0 },
    }
}

/// The record a usable scrape attempt parses to: each field its own token,
/// zero where that one field is unparsed.
pub open spec fn metrics_of(r: RawFieldSet) -> StockMetrics {
    StockMetrics {
        total_holding_value: or_zero(spec_total_holding(r)),
        daily_gain_percent_value: or_zero(spec_daily_gain_percent(r)),
        daily_gain_value: or_zero(spec_daily_gain(r)),
        total_gain_value: or_zero(spec_total_gain(r)),
        total_gain_percent_value: or_zero(spec_total_gain_percent(r)),
    }
}

fn money_trim_chars() -> (r: Vec<u8>)
    ensures
        r@ == money_trim(),
{
    let mut v: Vec<u8> = Vec::new();
    v.push(36);
    v.push(44);
    assert(v@ =~= money_trim());
    v
}

fn percent_trim_chars() -> (r: Vec<u8>)
    ensures
        r@ == percent_trim(),
{
    let mut v: Vec<u8> = Vec::new();
    v.push(40);
    v.push(37);
    v.push(41);
    assert(v@ =~= percent_trim());
    v
}

fn frag_slice(f: &Option<Vec<u8>>) -> (r: Option<&[u8]>)
    ensures
        ({
            match r {
                Some(s) => frag_view(*f) == Some(s@),
                None => frag_view(*f) is None,
            }
        }),
{
    match f {
        Some(v) => Some(v.as_slice()),
        None => None,
    }
}

/// Parses one scrape attempt into a full metrics record.
///
/// Never partial: on success every field is present, holding zero where that
/// one field could not be read.  Fails with `NoUsableData` exactly when all
/// five fields are unparsed, so the caller can leave the cache untouched.
pub fn parse(raw: &RawFieldSet) -> (r: Result<StockMetrics, ParseError>)
    ensures
        r is Ok <==> any_field_parses(*raw),
        r is Ok ==> r->Ok_0 == metrics_of(*raw),
        r is Err ==> r->Err_0 == ParseError::NoUsableData,
{
    let money = money_trim_chars();
    let percent = percent_trim_chars();
    let th = parse_value(frag_slice(&raw.total_holding), 0, money.as_slice());
    let dg = parse_value(frag_slice(&raw.daily_gain), 0, money.as_slice());
    let dgp = parse_value(frag_slice(&raw.daily_gain), 1, percent.as_slice());
    let tg = parse_value(frag_slice(&raw.total_gain), 0, money.as_slice());
    let tgp = parse_value(frag_slice(&raw.total_gain), 1, percent.as_slice());
    if th.is_none() && dg.is_none() && dgp.is_none() && tg.is_none() && tgp.is_none() {
        Err(ParseError::NoUsableData)
    } else {
        Ok(
            StockMetrics {
                total_holding_value: unwrap_or_zero(th),
                daily_gain_percent_value: unwrap_or_zero(dgp),
                daily_gain_value: unwrap_or_zero(dg),
                total_gain_value: unwrap_or_zero(tg),
                total_gain_percent_value: unwrap_or_zero(tgp),
            },
        )
    }
}

/// A scrape attempt where every field's token is present and well-formed
/// parses to exactly those five values, none defaulted: the parsed record
/// reconstructs the page's figures.
pub proof fn lemma_well_formed_exact(
    raw: RawFieldSet,
    th: FixedDec,
    dgp: FixedDec,
    dg: FixedDec,
    tg: FixedDec,
    tgp: FixedDec,
)
    requires
        spec_total_holding(raw) == Some(th),
        spec_daily_gain_percent(raw) == Some(dgp),
        spec_daily_gain(raw) == Some(dg),
        spec_total_gain(raw) == Some(tg),
        spec_total_gain_percent(raw) == Some(tgp),
    ensures
        any_field_parses(raw),
        metrics_of(raw) == (StockMetrics {
            total_holding_value: th,
            daily_gain_percent_value: dgp,
            daily_gain_value: dg,
            total_gain_value: tg,
            total_gain_percent_value: tgp,
        }),
{
}

fn unwrap_or_zero(f: Option<FixedDec>) -> (r: FixedDec)
    ensures
        r == or_zero(f),
{
    match f {
        Some(d) => d,
        None => FixedDec::zero(),
    }
}

} // verus!
