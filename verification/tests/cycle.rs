use yahoo_finance_metrics::fields::{RawFieldSet, StockMetrics};
use yahoo_finance_metrics::num::FixedDec;
use yahoo_finance_metrics::scheduler::{advance_cycle, CycleEvent, CycleOutcome};
use yahoo_finance_metrics::store::MetricsStore;

fn good_raw() -> RawFieldSet {
    RawFieldSet {
        total_holding: Some(b"$10,000.00".to_vec()),
        daily_gain: Some(b"-13.68 (-0.33%)".to_vec()),
        total_gain: Some(b"500.00 (5.25%)".to_vec()),
    }
}

fn empty_raw() -> RawFieldSet {
    RawFieldSet { total_holding: None, daily_gain: None, total_gain: None }
}

fn stored_sample(store: &mut MetricsStore) -> StockMetrics {
    let o = advance_cycle(store, CycleEvent::Extracted(good_raw()));
    assert_eq!(o, CycleOutcome::Stored);
    store.read().unwrap()
}

#[test]
fn fresh_store_reads_empty() {
    let store = MetricsStore::new();
    assert_eq!(store.read(), None);
}

#[test]
fn writing_twice_equals_writing_once() {
    let m = StockMetrics {
        total_holding_value: FixedDec::new(false, 1000000, 2),
        daily_gain_percent_value: FixedDec::new(true, 33, 2),
        daily_gain_value: FixedDec::new(true, 1368, 2),
        total_gain_value: FixedDec::new(false, 50000, 2),
        total_gain_percent_value: FixedDec::new(false, 525, 2),
    };
    let mut once = MetricsStore::new();
    once.write(m);
    let mut twice = MetricsStore::new();
    twice.write(m);
    twice.write(m);
    assert_eq!(once.read(), twice.read());
}

#[test]
fn usable_extraction_is_stored() {
    let mut store = MetricsStore::new();
    let m = stored_sample(&mut store);
    assert_eq!(m.total_holding_value, FixedDec::new(false, 1000000, 2));
}

#[test]
fn acquisition_failure_keeps_previous_reading() {
    let mut store = MetricsStore::new();
    let before = stored_sample(&mut store);
    let o = advance_cycle(&mut store, CycleEvent::AcquisitionFailed);
    assert_eq!(o, CycleOutcome::Discarded);
    assert_eq!(store.read(), Some(before));
}

#[test]
fn empty_attempt_keeps_previous_reading() {
    let mut store = MetricsStore::new();
    let before = stored_sample(&mut store);
    let o = advance_cycle(&mut store, CycleEvent::Extracted(empty_raw()));
    assert_eq!(o, CycleOutcome::Discarded);
    assert_eq!(store.read(), Some(before));
}

#[test]
fn empty_attempt_on_fresh_store_stores_nothing() {
    let mut store = MetricsStore::new();
    let o = advance_cycle(&mut store, CycleEvent::Extracted(empty_raw()));
    assert_eq!(o, CycleOutcome::Discarded);
    assert_eq!(store.read(), None);
}

#[test]
fn closed_market_skips_without_touching_the_store() {
    let mut store = MetricsStore::new();
    let before = stored_sample(&mut store);
    let o = advance_cycle(&mut store, CycleEvent::MarketClosed);
    assert_eq!(o, CycleOutcome::Skipped);
    assert_eq!(store.read(), Some(before));
    let o2 = advance_cycle(&mut store, CycleEvent::ConfigUnavailable);
    assert_eq!(o2, CycleOutcome::Skipped);
    assert_eq!(store.read(), Some(before));
}

#[test]
fn partial_attempt_overwrites_with_partial_zeros() {
    let mut store = MetricsStore::new();
    stored_sample(&mut store);
    let partial = RawFieldSet {
        total_holding: Some(b"$9,999.00".to_vec()),
        daily_gain: None,
        total_gain: None,
    };
    let o = advance_cycle(&mut store, CycleEvent::Extracted(partial));
    assert_eq!(o, CycleOutcome::Stored);
    let m = store.read().unwrap();
    assert_eq!(m.total_holding_value, FixedDec::new(false, 999900, 2));
    assert_eq!(m.daily_gain_value, FixedDec::new(false, 0, 0));
}
