//! Error types for ticket handling.

use vstd::prelude::*;

verus! {

/// Ticket parsing error.
#[derive(Clone, Copy, Debug, PartialEq, Eq, Structural)]
pub struct TicketError;

impl TicketError {
    /// The error spelled out.
    pub fn message(&self) -> (r: &'static str)
        ensures
            r@ == "invalid ticket"@,
    {
        "invalid ticket"
    }
}

} // verus!
