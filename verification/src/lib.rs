//! A ledger of concerts and ticket sales.
//!
//! An operator publishes concerts with a price, a date and an inventory of
//! tickets. A buyer pays the exact price before the date and receives a
//! ticket, which the ledger records under the buyer's account.

pub mod account;
pub mod catalog;
pub mod error;
pub mod history;
pub mod label;
pub mod ledger;
pub mod tickets;

pub use account::AccountId;
pub use catalog::{CatalogView, Concert, ConcertCatalog};
pub use error::CustomError;
pub use history::Call;
pub use ledger::{LedgerView, TicketLedger};
pub use tickets::{Tickets, TicketsView};
