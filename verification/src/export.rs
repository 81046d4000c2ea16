//! The metrics text served to the exporter: newline-separated `name value`
//! pairs under the exporter's fixed metric names, rendered from the cached
//! record.  A store with nothing cached yet has no text; the server must
//! answer "not yet available", never zeros dressed up as a reading.

use vstd::prelude::*;
use crate::codec::str_bytes;
use crate::fields::StockMetrics;
use crate::num::{render_dec, render_decimal};

verus! {

/// The exporter text of a record: five lines, fixed names, fixed order.
pub open spec fn report_spec(m: StockMetrics) -> Seq<u8> {
    str_bytes("yahoo_finance_total_holding_value "@) + render_dec(m.total_holding_value)
        + str_bytes("\nyahoo_finance_daily_gain_percent_value "@) + render_dec(
        m.daily_gain_percent_value,
    ) + str_bytes("\nyahoo_finance_daily_gain_value "@) + render_dec(m.daily_gain_value)
        + str_bytes("\nyahoo_finance_total_gain_value "@) + render_dec(m.total_gain_value)
        + str_bytes("\nyahoo_finance_total_gain_percent_value "@) + render_dec(
        m.total_gain_percent_value,
    )
}

/// Renders the cached record as the exporter's metrics text.
pub fn render_metrics(m: &StockMetrics) -> (r: Vec<u8>)
    ensures
        r@ == report_spec(*m),
{
    proof {
        reveal_strlit("yahoo_finance_total_holding_value ");
        reveal_strlit("\nyahoo_finance_daily_gain_percent_value ");
        reveal_strlit("\nyahoo_finance_daily_gain_value ");
        reveal_strlit("\nyahoo_finance_total_gain_value ");
        reveal_strlit("\nyahoo_finance_total_gain_percent_value ");
    }
    let mut r: Vec<u8> = Vec::new();
    crate::codec::push_lit(&mut r, "yahoo_finance_total_holding_value ");
    let mut v0 = render_decimal(&m.total_holding_value);
    r.append(&mut v0);
    crate::codec::push_lit(&mut r, "\nyahoo_finance_daily_gain_percent_value ");
    let mut v1 = render_decimal(&m.daily_gain_percent_value);
    r.append(&mut v1);
    crate::codec::push_lit(&mut r, "\nyahoo_finance_daily_gain_value ");
    let mut v2 = render_decimal(&m.daily_gain_value);
    r.append(&mut v2);
    crate::codec::push_lit(&mut r, "\nyahoo_finance_total_gain_value ");
    let mut v3 = render_decimal(&m.total_gain_value);
    r.append(&mut v3);
    crate::codec::push_lit(&mut r, "\nyahoo_finance_total_gain_percent_value ");
    let mut v4 = render_decimal(&m.total_gain_percent_value);
    r.append(&mut v4);
    assert(r@ =~= report_spec(*m));
    r
}

} // verus!
