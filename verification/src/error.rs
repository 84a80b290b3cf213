//! The reasons for which an operation of the ledger is refused.

use vstd::prelude::*;

verus! {

/// Why a call was refused. Every refusal leaves the state as it was.
#[derive(Debug, Clone, Copy, PartialEq, Eq, Structural)]
pub enum CustomError {
    /// No concert has the identifier that was given.
    ConcertDoesntExist,
    /// The concert has no ticket left.
    TicketsSoldOut,
    /// The current time is past the concert's date.
    ConcertFinished,
    /// The amount paid differs from the ticket's price.
    IncorrectPaymentValue,
    /// The account has never bought a ticket.
    AccountNotFound,
}

} // verus!
