//! The per-cycle store decision of the acquisition loop.
//!
//! Each cycle the loop consults the market-hours gate, scrapes if the market
//! is open, and hands what happened to `advance_cycle`, which alone decides
//! whether the cache changes: a closed market or unavailable configuration
//! skips the cycle, a failed scrape or an attempt with no usable data
//! discards it, and only a usable attempt stores a record.  No failure of a
//! single cycle disturbs the cache or the loop.

use vstd::prelude::*;
use crate::fields::{any_field_parses, metrics_of, parse, ParseError, RawFieldSet};
use crate::store::MetricsStore;

verus! {

/// What one acquisition cycle observed before the store decision.
pub enum CycleEvent {
    /// The market-hours gate said closed, or could not be evaluated:
    /// nothing was scraped this cycle.
    MarketClosed,
    /// The configuration source was missing or unreadable this cycle.
    ConfigUnavailable,
    /// The page session failed as a whole: navigation or transport broke
    /// and no fragments were obtained.
    AcquisitionFailed,
    /// A scrape attempt completed and yielded its (possibly partial)
    /// fragments.
    Extracted(RawFieldSet),
}

/// How one cycle ended.
#[derive(Clone, Copy, Debug, PartialEq, Eq, Structural)]
pub enum CycleOutcome {
    Skipped,
    Discarded,
    Stored,
}

/// Applies one cycle's observation to the cache.
///
/// The cache changes only when the attempt parsed with usable data, and
/// then to exactly the parsed record; every other event leaves it
/// untouched, so a reader still sees the previous known-good reading.
pub fn advance_cycle(store: &mut MetricsStore, event: CycleEvent) -> (o: CycleOutcome)
    ensures
        match event {
            CycleEvent::MarketClosed => o == CycleOutcome::Skipped && final(store)@ == old(
                store,
            )@,
            CycleEvent::ConfigUnavailable => o == CycleOutcome::Skipped && final(store)@ == old(
                store,
            )@,
            CycleEvent::AcquisitionFailed => o == CycleOutcome::Discarded && final(store)@ == old(
                store,
            )@,
            CycleEvent::Extracted(raw) => if any_field_parses(raw) {
                o == CycleOutcome::Stored && final(store)@ == Some(metrics_of(raw))
            } else {
                o == CycleOutcome::Discarded && final(store)@ == old(store)@
            },
        },
{
    match event {
        CycleEvent::MarketClosed => CycleOutcome::Skipped,
        CycleEvent::ConfigUnavailable => CycleOutcome::Skipped,
        CycleEvent::AcquisitionFailed => CycleOutcome::Discarded,
        CycleEvent::Extracted(raw) => match parse(&raw) {
            Ok(m) => {
                store.write(m);
                CycleOutcome::Stored
            },
            Err(ParseError::NoUsableData) => CycleOutcome::Discarded,
        },
    }
}

/// A scrape attempt with all three fragments absent has no usable data:
/// every field is unparsed, so a cycle that extracted it is discarded and
/// the cache is left unchanged.
pub proof fn lemma_empty_attempt_unusable(raw: RawFieldSet)
    requires
        raw.total_holding is None,
        raw.daily_gain is None,
        raw.total_gain is None,
    ensures
        !any_field_parses(raw),
{
}

} // verus!
