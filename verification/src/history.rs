//! Histories: what holds of an office after any sequence of calls.

use vstd::prelude::*;
use crate::account::AccountId;
use crate::tickets::TicketsView;

verus! {

/// A call that changes an office.
pub enum Call {
    /// A concert is published.
    Publish { tickets_available: u32, price: u128, date: u64 },
    /// A ticket is asked for.
    Purchase {
        concert_id: u32,
        name: Seq<char>,
        surname: Seq<char>,
        caller: AccountId,
        paid: u128,
        now: u64,
    },
}

impl TicketsView {
    /// Whether the office can take the call: a concert can be published as
    /// long as its number fits in 32 bits; a ticket can always be asked for.
    pub open spec fn takes(self, call: Call) -> bool {
        match call {
            Call::Publish { .. } => self.catalog.count() < u32::MAX,
            Call::Purchase { .. } => true,
        }
    }

    /// The office after the call. A purchase that is refused changes
    /// nothing.
    pub open spec fn step(self, call: Call) -> TicketsView {
        match call {
            Call::Publish { tickets_available, price, date } => self.with_concert(
                tickets_available,
                price,
                date,
            ),
            Call::Purchase { concert_id, name, surname, caller, paid, now } => {
                if self.purchase_error(concert_id, paid, now) is None {
                    self.after_purchase(concert_id, name, surname, caller)
                } else {
                    self
                }
            },
        }
    }

    /// The office after the calls, made one after another.
    pub open spec fn run(self, calls: Seq<Call>) -> TicketsView
        decreases calls.len(),
    {
        if calls.len() == 0 {
            self
        } else {
            self.run(calls.drop_last()).step(calls.last())
        }
    }

    /// Whether the office can take each of the calls when its turn comes.
    pub open spec fn takes_all(self, calls: Seq<Call>) -> bool
        decreases calls.len(),
    {
        calls.len() == 0 || (self.takes_all(calls.drop_last()) && self.run(calls.drop_last()).takes(
            calls.last(),
        ))
    }

    /// Whether `later` can have come from this office: every concert is
    /// still there under its number, with its price, its date and the
    /// stock it was published with, and with no more tickets left than
    /// before; and every ticket sold still has its owner and holder name.
    pub open spec fn grows_to(self, later: TicketsView) -> bool {
        &&& later.name == self.name
        &&& later.description == self.description
        &&& self.catalog.count() <= later.catalog.count()
        &&& forall|i: int|
            0 <= i < self.catalog.count() ==> {
                &&& (#[trigger] later.catalog.concerts[i]).concert_id
                    == self.catalog.concerts[i].concert_id
                &&& later.catalog.concerts[i].ticket_price == self.catalog.concerts[i].ticket_price
                &&& later.catalog.concerts[i].date == self.catalog.concerts[i].date
                &&& later.catalog.concerts[i].tickets_left <= self.catalog.concerts[i].tickets_left
                &&& later.catalog.stocked[i] == self.catalog.stocked[i]
            }
        &&& forall|t: Seq<char>| #[trigger]
            self.ledger.owners.contains_key(t) ==> {
                &&& later.ledger.owners.contains_key(t)
                &&& later.ledger.owners[t] == self.ledger.owners[t]
                &&& later.ledger.holder_names[t] == self.ledger.holder_names[t]
            }
    }

    /// One call keeps a well-formed office well-formed, and the office
    /// only grows.
    pub proof fn lemma_step(self, call: Call)
        requires
            self.wf(),
            self.takes(call),
        ensures
            self.step(call).wf(),
            self.grows_to(self.step(call)),
    {
        match call {
            Call::Publish { tickets_available, price, date } => {
                self.lemma_with_concert(tickets_available, price, date);
            },
            Call::Purchase { concert_id, name, surname, caller, paid, now } => {
                if self.purchase_error(concert_id, paid, now) is None {
                    self.lemma_after_purchase(concert_id, name, surname, caller);
                    self.lemma_next_label_unused(concert_id);
                }
            },
        }
    }

    /// Whatever calls are made, a well-formed office stays well-formed and
    /// only grows: concerts keep their numbers, no gap opens, no concert
    /// gains tickets, and no ticket changes hands.
    pub proof fn lemma_run(self, calls: Seq<Call>)
        requires
            self.wf(),
            self.takes_all(calls),
        ensures
            self.run(calls).wf(),
            self.grows_to(self.run(calls)),
        decreases calls.len(),
    {
        if calls.len() > 0 {
            let before = self.run(calls.drop_last());
            self.lemma_run(calls.drop_last());
            before.lemma_step(calls.last());
        }
    }

    /// A concert published with `tickets_available` tickets never has more
    /// than that left, whatever calls follow.
    pub proof fn lemma_never_above_initial_inventory(
        self,
        tickets_available: u32,
        price: u128,
        date: u64,
        calls: Seq<Call>,
    )
        requires
            self.wf(),
            self.catalog.count() < u32::MAX,
            self.with_concert(tickets_available, price, date).takes_all(calls),
        ensures
            ({
                let later = self.with_concert(tickets_available, price, date).run(calls);
                let concert_id = self.catalog.count() as int;
                &&& later.catalog.has(concert_id)
                &&& later.catalog.concerts[concert_id].concert_id == concert_id
                &&& 0 <= later.catalog.concerts[concert_id].tickets_left <= tickets_available
            }),
    {
        let published = self.with_concert(tickets_available, price, date);
        self.lemma_with_concert(tickets_available, price, date);
        published.lemma_run(calls);
        let later = published.run(calls);
        let concert_id = self.catalog.count() as int;
        assert(later.catalog.concerts[concert_id].tickets_left
            <= published.catalog.concerts[concert_id].tickets_left);
    }
}

} // verus!
