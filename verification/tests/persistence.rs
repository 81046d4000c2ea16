use yahoo_finance_metrics::codec::{decode_metrics, encode_metrics};
use yahoo_finance_metrics::export::render_metrics;
use yahoo_finance_metrics::fields::StockMetrics;
use yahoo_finance_metrics::num::FixedDec;

fn sample() -> StockMetrics {
    StockMetrics {
        total_holding_value: FixedDec::new(false, 1000000, 2),
        daily_gain_percent_value: FixedDec::new(true, 33, 2),
        daily_gain_value: FixedDec::new(true, 1368, 2),
        total_gain_value: FixedDec::new(false, 50000, 2),
        total_gain_percent_value: FixedDec::new(false, 525, 2),
    }
}

#[test]
fn encode_writes_canonical_json() {
    let expected = "{\"total_holding_value\":10000.00,\"daily_gain_percent_value\":-0.33,\"daily_gain_value\":-13.68,\"total_gain_value\":500.00,\"total_gain_percent_value\":5.25}";
    assert_eq!(encode_metrics(&sample()), expected.as_bytes().to_vec());
}

#[test]
fn decode_reads_back_what_encode_wrote() {
    let m = sample();
    assert_eq!(decode_metrics(&encode_metrics(&m)), Some(m));
    let zeroed = StockMetrics {
        total_holding_value: FixedDec::new(false, 0, 0),
        daily_gain_percent_value: FixedDec::new(false, 0, 0),
        daily_gain_value: FixedDec::new(false, 0, 0),
        total_gain_value: FixedDec::new(false, 0, 0),
        total_gain_percent_value: FixedDec::new(false, 0, 0),
    };
    assert_eq!(decode_metrics(&encode_metrics(&zeroed)), Some(zeroed));
}

#[test]
fn decode_rejects_other_shapes() {
    assert_eq!(decode_metrics(b""), None);
    assert_eq!(decode_metrics(b"{}"), None);
    assert_eq!(decode_metrics(b"not json at all"), None);
    let mut with_junk = encode_metrics(&sample());
    with_junk.push(b' ');
    assert_eq!(decode_metrics(&with_junk), None);
    let truncated = &encode_metrics(&sample())[..40];
    assert_eq!(decode_metrics(truncated), None);
}

#[test]
fn exporter_text_has_the_fixed_names_in_order() {
    let expected = "yahoo_finance_total_holding_value 10000.00\nyahoo_finance_daily_gain_percent_value -0.33\nyahoo_finance_daily_gain_value -13.68\nyahoo_finance_total_gain_value 500.00\nyahoo_finance_total_gain_percent_value 5.25";
    assert_eq!(render_metrics(&sample()), expected.as_bytes().to_vec());
}
