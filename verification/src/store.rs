//! The single-slot cache of the most recent successfully parsed reading.
//!
//! The slot is written only as a whole record and only by a successful
//! acquisition cycle; readers see either nothing (before any write) or the
//! last record written.  The embedding program is expected to guard the
//! store behind a lock or an atomically swapped snapshot — one writer, many
//! readers — and to persist the encoded record so a restart starts from the
//! last known-good reading.

use vstd::prelude::*;
use crate::fields::StockMetrics;

verus! {

pub struct MetricsStore {
    slot: Option<StockMetrics>,
}

impl View for MetricsStore {
    type V = Option<StockMetrics>;

    closed spec fn view(&self) -> Option<StockMetrics> {
        self.slot
    }
}

/// What the slot holds after a write: the new record, whatever was there.
pub open spec fn store_after_write(slot: Option<StockMetrics>, m: StockMetrics) -> Option<
    StockMetrics,
> {
    Some(m)
}

impl MetricsStore {
    /// An empty store: no reading has been cached yet.
    pub fn new() -> (r: MetricsStore)
        ensures
            r@ is None,
    {
        MetricsStore { slot: None }
    }

    /// Caches a reading: the whole record at once, last writer wins.
    pub fn write(&mut self, m: StockMetrics)
        ensures
            final(self)@ == store_after_write(old(self)@, m),
    {
        self.slot = Some(m);
    }

    /// The latest cached reading; `None` means "not yet available", which
    /// the exporter must report as such, never as fabricated zeros.
    pub fn read(&self) -> (r: Option<StockMetrics>)
        ensures
            r == self@,
    {
        self.slot
    }
}

/// Writing the same record twice leaves the store exactly as one write
/// does: writes are idempotent and last-writer-wins.
pub proof fn lemma_write_idempotent(slot: Option<StockMetrics>, m: StockMetrics)
    ensures
        store_after_write(store_after_write(slot, m), m) == store_after_write(slot, m),
{
}

} // verus!
