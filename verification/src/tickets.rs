//! The ticket office: it publishes concerts, sells their tickets against
//! exact payment before the concert's date, and lists what an account holds.

use vstd::prelude::*;
use crate::account::AccountId;
use crate::catalog::{CatalogView, Concert, ConcertCatalog};
use crate::error::CustomError;
use crate::label::{format_ticket_label, lemma_ticket_label_injective, ticket_label};
use crate::ledger::{LedgerView, TicketLedger};

verus! {

/// The name under which a ticket is recorded: the buyer's name, a space and
/// the buyer's surname.
pub open spec fn full_name(name: Seq<char>, surname: Seq<char>) -> Seq<char> {
    name + seq![' '] + surname
}

/// What a ticket office holds.
pub struct TicketsView {
    pub name: Seq<char>,
    pub description: Seq<char>,
    pub catalog: CatalogView,
    pub ledger: LedgerView,
}

impl TicketsView {
    /// The office called `name`, described by `description`, without
    /// concerts or tickets.
    pub open spec fn fresh(name: Seq<char>, description: Seq<char>) -> TicketsView {
        TicketsView {
            name: name,
            description: description,
            catalog: CatalogView::empty(),
            ledger: LedgerView::empty(),
        }
    }

    /// Whether `ticket_id` names a ticket that the catalog counts as sold.
    pub open spec fn minted(self, ticket_id: Seq<char>) -> bool {
        exists|c: nat, k: nat|
            self.catalog.sold(c as int, k as int) && #[trigger] ticket_label(c, k) == ticket_id
    }

    /// The catalog and the ledger are each well-formed, and the ledger holds
    /// exactly the tickets that the catalog counts as sold.
    pub open spec fn wf(self) -> bool {
        &&& self.catalog.wf()
        &&& self.ledger.wf()
        &&& forall|t: Seq<char>| self.ledger.owners.contains_key(t) <==> self.minted(t)
    }

    /// The office after a concert was published.
    pub open spec fn with_concert(self, tickets_available: u32, price: u128, date: u64) -> TicketsView {
        TicketsView { catalog: self.catalog.with_concert(tickets_available, price, date), ..self }
    }

    /// Why a purchase is refused, if it is. The concert must exist, have a
    /// ticket left and not be over, and the payment must be the price; the
    /// first of these that fails gives the reason.
    pub open spec fn purchase_error(self, concert_id: u32, paid: u128, now: u64) -> Option<CustomError> {
        if !self.catalog.has(concert_id as int) {
            Some(CustomError::ConcertDoesntExist)
        } else if self.catalog.concerts[concert_id as int].tickets_left < 1 {
            Some(CustomError::TicketsSoldOut)
        } else if now > self.catalog.concerts[concert_id as int].date {
            Some(CustomError::ConcertFinished)
        } else if paid != self.catalog.concerts[concert_id as int].ticket_price {
            Some(CustomError::IncorrectPaymentValue)
        } else {
            None
        }
    }

    /// The identifier of the next ticket of `concert_id`: the concert's
    /// number and the number of tickets that are left.
    pub open spec fn next_label(self, concert_id: u32) -> Seq<char> {
        ticket_label(concert_id as nat, self.catalog.concerts[concert_id as int].tickets_left as nat)
    }

    /// The office after `caller` bought the next ticket of `concert_id`
    /// under the given name and surname.
    pub open spec fn after_purchase(
        self,
        concert_id: u32,
        name: Seq<char>,
        surname: Seq<char>,
        caller: AccountId,
    ) -> TicketsView {
        TicketsView {
            catalog: self.catalog.with_sale(concert_id as int),
            ledger: self.ledger.with_sale(self.next_label(concert_id), caller, full_name(name, surname)),
            ..self
        }
    }

    /// Publishing a concert keeps the office well-formed.
    pub proof fn lemma_with_concert(self, tickets_available: u32, price: u128, date: u64)
        requires
            self.wf(),
            self.catalog.count() < u32::MAX,
        ensures
            self.with_concert(tickets_available, price, date).wf(),
    {
        let after = self.with_concert(tickets_available, price, date);
        self.catalog.lemma_with_concert(tickets_available, price, date);
        assert forall|t: Seq<char>| after.ledger.owners.contains_key(t) <==> after.minted(t) by {
            if self.minted(t) {
                let (c, k) = choose|c: nat, k: nat|
                    self.catalog.sold(c as int, k as int) && #[trigger] ticket_label(c, k) == t;
                assert(after.catalog.sold(c as int, k as int) && ticket_label(c, k) == t);
            }
            if after.minted(t) {
                let (c, k) = choose|c: nat, k: nat|
                    after.catalog.sold(c as int, k as int) && #[trigger] ticket_label(c, k) == t;
                assert(self.catalog.sold(c as int, k as int) && ticket_label(c, k) == t);
            }
        }
    }

    /// The next ticket of a concert that has one left is not in the ledger
    /// yet.
    pub proof fn lemma_next_label_unused(self, concert_id: u32)
        requires
            self.wf(),
            self.catalog.has(concert_id as int),
        ensures
            !self.ledger.owners.contains_key(self.next_label(concert_id)),
    {
        let t = self.next_label(concert_id);
        if self.minted(t) {
            let (c, k) = choose|c: nat, k: nat|
                self.catalog.sold(c as int, k as int) && #[trigger] ticket_label(c, k) == t;
            lemma_ticket_label_injective(
                c,
                k,
                concert_id as nat,
                self.catalog.concerts[concert_id as int].tickets_left as nat,
            );
        }
    }

    /// A purchase that is not refused keeps the office well-formed.
    pub proof fn lemma_after_purchase(
        self,
        concert_id: u32,
        name: Seq<char>,
        surname: Seq<char>,
        caller: AccountId,
    )
        requires
            self.wf(),
            self.catalog.has(concert_id as int),
            self.catalog.concerts[concert_id as int].tickets_left >= 1,
        ensures
            self.after_purchase(concert_id, name, surname, caller).wf(),
    {
        let after = self.after_purchase(concert_id, name, surname, caller);
        let t0 = self.next_label(concert_id);
        let c0 = concert_id as nat;
        let k0 = self.catalog.concerts[concert_id as int].tickets_left as nat;
        self.catalog.lemma_with_sale(concert_id as int);
        self.lemma_next_label_unused(concert_id);
        self.ledger.lemma_with_sale(t0, caller, full_name(name, surname));
        assert forall|t: Seq<char>| after.ledger.owners.contains_key(t) <==> after.minted(t) by {
            if t == t0 {
                assert(after.catalog.sold(c0 as int, k0 as int) && ticket_label(c0, k0) == t);
            }
            if self.minted(t) {
                let (c, k) = choose|c: nat, k: nat|
                    self.catalog.sold(c as int, k as int) && #[trigger] ticket_label(c, k) == t;
                assert(after.catalog.sold(c as int, k as int) && ticket_label(c, k) == t);
            }
            if after.minted(t) {
                let (c, k) = choose|c: nat, k: nat|
                    after.catalog.sold(c as int, k as int) && #[trigger] ticket_label(c, k) == t;
                if !(c == c0 && k == k0) {
                    assert(self.catalog.sold(c as int, k as int) && ticket_label(c, k) == t);
                }
            }
        }
    }

    /// No concert has more tickets left than it was published with, and
    /// what is left is never negative.
    pub proof fn lemma_inventory_within_stock(self, concert_id: int)
        requires
            self.wf(),
            self.catalog.has(concert_id),
        ensures
            0 <= self.catalog.concerts[concert_id].tickets_left <= self.catalog.stocked[concert_id],
    {
    }

    /// The last ticket of a concert can be bought, and after that every
    /// purchase for the same concert is refused as sold out, whatever is
    /// paid and whenever.
    pub proof fn lemma_last_ticket(
        self,
        concert_id: u32,
        name: Seq<char>,
        surname: Seq<char>,
        caller: AccountId,
        paid: u128,
        now: u64,
    )
        requires
            self.wf(),
            self.catalog.has(concert_id as int),
            self.catalog.concerts[concert_id as int].tickets_left == 1,
            now <= self.catalog.concerts[concert_id as int].date,
            paid == self.catalog.concerts[concert_id as int].ticket_price,
        ensures
            self.purchase_error(concert_id, paid, now) is None,
            forall|later_paid: u128, later_now: u64|
                self.after_purchase(concert_id, name, surname, caller).purchase_error(
                    concert_id,
                    later_paid,
                    later_now,
                ) == Some(CustomError::TicketsSoldOut),
    {
    }

    /// A purchase after the date of a concert that still has tickets is
    /// refused because the concert is over, whatever is paid.
    pub proof fn lemma_finished_concert(self, concert_id: u32, paid: u128, now: u64)
        requires
            self.catalog.has(concert_id as int),
            self.catalog.concerts[concert_id as int].tickets_left >= 1,
            now > self.catalog.concerts[concert_id as int].date,
        ensures
            self.purchase_error(concert_id, paid, now) == Some(CustomError::ConcertFinished),
    {
    }

    /// A purchase in time for a concert that still has tickets is refused
    /// for its payment exactly when the payment is not the price, be it less
    /// or more.
    pub proof fn lemma_incorrect_payment(self, concert_id: u32, paid: u128, now: u64)
        requires
            self.catalog.has(concert_id as int),
            self.catalog.concerts[concert_id as int].tickets_left >= 1,
            now <= self.catalog.concerts[concert_id as int].date,
        ensures
            paid != self.catalog.concerts[concert_id as int].ticket_price <==> self.purchase_error(
                concert_id,
                paid,
                now,
            ) == Some(CustomError::IncorrectPaymentValue),
            paid == self.catalog.concerts[concert_id as int].ticket_price <==> self.purchase_error(
                concert_id,
                paid,
                now,
            ) is None,
    {
    }

    /// After a purchase the new ticket belongs to the buyer, stands last and
    /// exactly once in the buyer's list, and stands in no other list.
    pub proof fn lemma_bought_ticket_listed_once(
        self,
        concert_id: u32,
        name: Seq<char>,
        surname: Seq<char>,
        caller: AccountId,
        paid: u128,
        now: u64,
    )
        requires
            self.wf(),
            self.purchase_error(concert_id, paid, now) is None,
        ensures
            ({
                let after = self.after_purchase(concert_id, name, surname, caller);
                let ticket_id = self.next_label(concert_id);
                &&& after.ledger.owners.contains_key(ticket_id)
                &&& after.ledger.owners[ticket_id] == caller
                &&& after.ledger.holder_names[ticket_id] == full_name(name, surname)
                &&& after.ledger.tickets_of.contains_key(caller)
                &&& after.ledger.tickets_of[caller].last() == ticket_id
                &&& after.ledger.tickets_of[caller].filter(|t: Seq<char>| t == ticket_id).len() == 1
                &&& forall|other: AccountId|
                    after.ledger.tickets_of.contains_key(other) && other != caller
                        ==> !after.ledger.tickets_of[other].contains(ticket_id)
            }),
    {
        let after = self.after_purchase(concert_id, name, surname, caller);
        let ticket_id = self.next_label(concert_id);
        self.lemma_after_purchase(concert_id, name, surname, caller);
        after.ledger.lemma_listed_once(ticket_id);
    }
}

/// The ticket office.
pub struct Tickets {
    name: String,
    description: String,
    catalog: ConcertCatalog,
    ledger: TicketLedger,
}

impl View for Tickets {
    type V = TicketsView;

    closed spec fn view(&self) -> TicketsView {
        TicketsView {
            name: self.name@,
            description: self.description@,
            catalog: self.catalog@,
            ledger: self.ledger@,
        }
    }
}

impl Tickets {
    /// What every office keeps: its contents are well-formed.
    pub closed spec fn wf(&self) -> bool {
        &&& self@.wf()
        &&& self.catalog.wf()
        &&& self.ledger.wf()
    }

    /// A well-formed office has well-formed contents.
    pub proof fn lemma_wf(&self)
        requires
            self.wf(),
        ensures
            self@.wf(),
    {
    }

    /// An office with the given name and description, without concerts or
    /// tickets.
    pub fn new(init_name: String, init_description: String) -> (office: Tickets)
        ensures
            office.wf(),
            office@ == TicketsView::fresh(init_name@, init_description@),
    {
        let office = Tickets {
            name: init_name,
            description: init_description,
            catalog: ConcertCatalog::new(),
            ledger: TicketLedger::new(),
        };
        proof {
            assert forall|t: Seq<char>| !office@.minted(t) by {}
        }
        office
    }

    /// An office without a name or a description, without concerts or
    /// tickets.
    pub fn default() -> (office: Tickets)
        ensures
            office.wf(),
            office@ == TicketsView::fresh(Seq::empty(), Seq::empty()),
    {
        Tickets::new(String::new(), String::new())
    }

    /// The office's name.
    pub fn name(&self) -> (name: &str)
        ensures
            name@ == self@.name,
    {
        self.name.as_str()
    }

    /// The office's description.
    pub fn description(&self) -> (description: &str)
        ensures
            description@ == self@.description,
    {
        self.description.as_str()
    }

    /// How many concerts have been published.
    pub fn concert_count(&self) -> (n: u32)
        requires
            self.wf(),
        ensures
            n == self@.catalog.count(),
    {
        self.catalog.count()
    }

    /// Publishes a concert with `tickets_available` tickets at `price`,
    /// open for purchase until `timestamp`, and returns its number: 0 for
    /// the first concert, then 1, 2, … in the order of publication.
    pub fn add_new_concert(&mut self, tickets_available: u32, price: u128, timestamp: u64) -> (concert_id:
        u32)
        requires
            old(self).wf(),
            old(self)@.catalog.count() < u32::MAX,
        ensures
            final(self).wf(),
            concert_id == old(self)@.catalog.count(),
            final(self)@ == old(self)@.with_concert(tickets_available, price, timestamp),
    {
        proof {
            self@.lemma_with_concert(tickets_available, price, timestamp);
        }
        self.catalog.add_concert(tickets_available, price, timestamp)
    }

    /// Every concert, in the order of their numbers. A well-formed office
    /// misses none of them, so the listing does not fail.
    pub fn get_concerts(&self) -> (listed: Result<Vec<Concert>, CustomError>)
        requires
            self.wf(),
        ensures
            listed is Ok,
            listed->Ok_0@ == self@.catalog.concerts,
    {
        self.catalog.list_concerts()
    }

    /// Sells `caller` the next ticket of `concert_id` and returns the
    /// ticket's identifier. The purchase is refused, and nothing changes, if
    /// the concert does not exist, has no ticket left, is over at `now`, or
    /// if `paid` is not the ticket's price.
    pub fn buy_ticket(
        &mut self,
        concert_id: u32,
        name: String,
        surname: String,
        caller: AccountId,
        paid: u128,
        now: u64,
    ) -> (bought: Result<String, CustomError>)
        requires
            old(self).wf(),
        ensures
            final(self).wf(),
            match bought {
                Ok(ticket_id) => {
                    &&& old(self)@.purchase_error(concert_id, paid, now) is None
                    &&& ticket_id@ == old(self)@.next_label(concert_id)
                    &&& final(self)@ == old(self)@.after_purchase(concert_id, name@, surname@, caller)
                },
                Err(error) => {
                    &&& old(self)@.purchase_error(concert_id, paid, now) == Some(error)
                    &&& final(self)@ == old(self)@
                },
            },
    {
        let concert = match self.catalog.get(concert_id) {
            Some(concert) => concert,
            None => {
                return Err(CustomError::ConcertDoesntExist);
            },
        };
        if concert.tickets_left < 1 {
            return Err(CustomError::TicketsSoldOut);
        }
        if now > concert.date {
            return Err(CustomError::ConcertFinished);
        }
        if paid != concert.ticket_price {
            return Err(CustomError::IncorrectPaymentValue);
        }
        proof {
            self@.lemma_next_label_unused(concert_id);
            self@.lemma_after_purchase(concert_id, name@, surname@, caller);
            reveal_strlit(" ");
            assert(" "@ =~= seq![' ']);
        }
        let ticket_id = format_ticket_label(concert_id, concert.tickets_left);
        let ticket_owner = name.concat(" ").concat(surname.as_str());
        match self.catalog.decrement_inventory(concert_id) {
            Ok(_) => {},
            Err(error) => {
                return Err(error);
            },
        }
        self.ledger.record_sale(ticket_id.clone(), caller, ticket_owner);
        Ok(ticket_id)
    }

    /// The tickets of `caller`, in the order in which they were bought. An
    /// account that has never bought a ticket is not found.
    pub fn get_my_tickets(&self, caller: &AccountId) -> (listed: Result<Vec<String>, CustomError>)
        requires
            self.wf(),
        ensures
            match listed {
                Ok(tickets) => {
                    &&& self@.ledger.tickets_of.contains_key(*caller)
                    &&& tickets.deep_view() == self@.ledger.tickets_of[*caller]
                },
                Err(error) => {
                    &&& !self@.ledger.tickets_of.contains_key(*caller)
                    &&& error == CustomError::AccountNotFound
                },
            },
    {
        self.ledger.tickets_for(caller)
    }

    /// The account that owns the ticket `ticket_id`, if it has been sold.
    pub fn ticket_owner(&self, ticket_id: &str) -> (owner: Option<AccountId>)
        requires
            self.wf(),
        ensures
            owner == if self@.ledger.owners.contains_key(ticket_id@) {
                Some(self@.ledger.owners[ticket_id@])
            } else {
                None
            },
    {
        self.ledger.owner_of(ticket_id)
    }

    /// The name under which the ticket `ticket_id` was bought, if it has
    /// been sold.
    pub fn ticket_holder(&self, ticket_id: &str) -> (name: Option<String>)
        requires
            self.wf(),
        ensures
            name is Some <==> self@.ledger.holder_names.contains_key(ticket_id@),
            name is Some ==> name->Some_0@ == self@.ledger.holder_names[ticket_id@],
    {
        self.ledger.holder_name(ticket_id)
    }
}

} // verus!
