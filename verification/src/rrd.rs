//! Round-robin-database basics: how a data source's samples are stored.

use vstd::prelude::*;

verus! {

/// RRD data source type.
#[derive(Copy, Clone, Debug, PartialEq, Eq, Structural)]
pub enum DST {
    /// Gauge values are stored unmodified.
    Gauge,
    /// Stores the difference to the previous value.
    Derive,
}

} // verus!
