//! The catalog of concerts: an append-only table that numbers its concerts
//! from 0 and counts down the tickets of each.

use vstd::prelude::*;
use crate::error::CustomError;

verus! {

/// A concert on sale.
#[derive(Debug, Clone, Copy, PartialEq, Eq, Structural)]
pub struct Concert {
    /// The concert's number in the catalog.
    pub concert_id: u32,
    /// What one ticket costs.
    pub ticket_price: u128,
    /// The last moment at which a ticket can be bought.
    pub date: u64,
    /// How many tickets can still be sold.
    pub tickets_left: u32,
}

/// What a catalog holds: its concerts, each at the index of its number, and
/// beside each the number of tickets that it was published with.
pub struct CatalogView {
    pub concerts: Seq<Concert>,
    pub stocked: Seq<nat>,
}

impl CatalogView {
    /// The catalog without concerts.
    pub open spec fn empty() -> CatalogView {
        CatalogView { concerts: Seq::empty(), stocked: Seq::empty() }
    }

    /// How many concerts the catalog holds.
    pub open spec fn count(self) -> nat {
        self.concerts.len()
    }

    /// Whether a concert has the number `concert_id`.
    pub open spec fn has(self, concert_id: int) -> bool {
        0 <= concert_id < self.concerts.len()
    }

    /// The concerts are numbered 0, 1, 2, … in the order of the table, their
    /// numbers fit in 32 bits, and none has more tickets left than it was
    /// published with.
    pub open spec fn wf(self) -> bool {
        &&& self.stocked.len() == self.concerts.len()
        &&& self.concerts.len() <= u32::MAX
        &&& forall|i: int|
            0 <= i < self.concerts.len() ==> {
                &&& (#[trigger] self.concerts[i]).concert_id == i
                &&& self.concerts[i].tickets_left <= self.stocked[i]
            }
    }

    /// The catalog after a concert was published.
    pub open spec fn with_concert(self, tickets_available: u32, price: u128, date: u64) -> CatalogView {
        CatalogView {
            concerts: self.concerts.push(
                Concert {
                    concert_id: self.concerts.len() as u32,
                    ticket_price: price,
                    date: date,
                    tickets_left: tickets_available,
                },
            ),
            stocked: self.stocked.push(tickets_available as nat),
        }
    }

    /// The concert `concert_id` with one ticket less.
    pub open spec fn sold_one(self, concert_id: int) -> Concert {
        Concert {
            tickets_left: (self.concerts[concert_id].tickets_left - 1) as u32,
            ..self.concerts[concert_id]
        }
    }

    /// The catalog after one ticket of `concert_id` was sold.
    pub open spec fn with_sale(self, concert_id: int) -> CatalogView {
        CatalogView {
            concerts: self.concerts.update(concert_id, self.sold_one(concert_id)),
            stocked: self.stocked,
        }
    }

    /// Whether the ticket numbered `number` of `concert_id` has been sold:
    /// the numbers count down from the stock, so the sold ones are those
    /// above what is left.
    pub open spec fn sold(self, concert_id: int, number: int) -> bool {
        &&& self.has(concert_id)
        &&& self.concerts[concert_id].tickets_left < number <= self.stocked[concert_id]
    }

    /// The catalog after each of `batch` was published in turn; an entry
    /// gives the tickets available, the price and the date.
    pub open spec fn with_concerts(self, batch: Seq<(u32, u128, u64)>) -> CatalogView
        decreases batch.len(),
    {
        if batch.len() == 0 {
            self
        } else {
            self.with_concerts(batch.drop_last()).with_concert(
                batch.last().0,
                batch.last().1,
                batch.last().2,
            )
        }
    }

    /// Publishing a concert keeps the catalog well-formed, leaves the
    /// concerts that were there as they were, and sells nothing.
    pub proof fn lemma_with_concert(self, tickets_available: u32, price: u128, date: u64)
        requires
            self.wf(),
            self.count() < u32::MAX,
        ensures
            self.with_concert(tickets_available, price, date).wf(),
            forall|c: int, k: int|
                self.with_concert(tickets_available, price, date).sold(c, k) <==> self.sold(c, k),
    {
    }

    /// Selling a ticket keeps the catalog well-formed, and the ticket sold is
    /// the one numbered by what was left.
    pub proof fn lemma_with_sale(self, concert_id: int)
        requires
            self.wf(),
            self.has(concert_id),
            self.concerts[concert_id].tickets_left >= 1,
        ensures
            self.with_sale(concert_id).wf(),
            forall|c: int, k: int|
                self.with_sale(concert_id).sold(c, k) <==> (self.sold(c, k) || (c == concert_id && k
                    == self.concerts[concert_id].tickets_left)),
    {
    }

    /// However many concerts are published one after another, they are
    /// numbered 0, 1, 2, … without a gap, in the order in which they came,
    /// and each has the tickets, the price and the date it was published with.
    pub proof fn lemma_sequential_identifiers(self, batch: Seq<(u32, u128, u64)>)
        requires
            self.wf(),
            self.count() + batch.len() <= u32::MAX,
        ensures
            self.with_concerts(batch).wf(),
            self.with_concerts(batch).count() == self.count() + batch.len(),
            forall|i: int|
                0 <= i < self.count() + batch.len() ==> (#[trigger] self.with_concerts(
                    batch,
                ).concerts[i]).concert_id == i,
            forall|i: int|
                0 <= i < self.count() ==> self.with_concerts(batch).concerts[i] == self.concerts[i],
            forall|j: int|
                0 <= j < batch.len() ==> (#[trigger] self.with_concerts(batch).concerts[self.count()
                    + j]) == (Concert {
                    concert_id: (self.count() + j) as u32,
                    ticket_price: batch[j].1,
                    date: batch[j].2,
                    tickets_left: batch[j].0,
                }),
        decreases batch.len(),
    {
        if batch.len() > 0 {
            let before = self.with_concerts(batch.drop_last());
            self.lemma_sequential_identifiers(batch.drop_last());
            before.lemma_with_concert(batch.last().0, batch.last().1, batch.last().2);
        }
    }
}

/// The catalog of concerts.
pub struct ConcertCatalog {
    concert_counter: u32,
    concerts: Vec<Concert>,
    stocked: Ghost<Seq<nat>>,
}

impl View for ConcertCatalog {
    type V = CatalogView;

    closed spec fn view(&self) -> CatalogView {
        CatalogView { concerts: self.concerts@, stocked: self.stocked@ }
    }
}

impl ConcertCatalog {
    /// What every catalog keeps: its contents are well-formed.
    pub closed spec fn wf(&self) -> bool {
        &&& self@.wf()
        &&& self.concert_counter == self.concerts@.len()
    }

    /// A well-formed catalog has well-formed contents.
    pub proof fn lemma_wf(&self)
        requires
            self.wf(),
        ensures
            self@.wf(),
    {
    }

    /// The catalog without concerts.
    pub fn new() -> (catalog: ConcertCatalog)
        ensures
            catalog.wf(),
            catalog@ == CatalogView::empty(),
    {
        ConcertCatalog { concert_counter: 0, concerts: Vec::new(), stocked: Ghost(Seq::empty()) }
    }

    /// How many concerts have been published; also the number that the next
    /// one will get.
    pub fn count(&self) -> (n: u32)
        requires
            self.wf(),
        ensures
            n == self@.count(),
    {
        self.concert_counter
    }

    /// Publishes a concert under the next number, with all its tickets left,
    /// and returns that number.
    pub fn add_concert(&mut self, tickets_available: u32, price: u128, date: u64) -> (concert_id: u32)
        requires
            old(self).wf(),
            old(self)@.count() < u32::MAX,
        ensures
            final(self).wf(),
            concert_id == old(self)@.count(),
            final(self)@ == old(self)@.with_concert(tickets_available, price, date),
    {
        let concert_id = self.concert_counter;
        proof {
            self@.lemma_with_concert(tickets_available, price, date);
        }
        self.concerts.push(
            Concert {
                concert_id: concert_id,
                ticket_price: price,
                date: date,
                tickets_left: tickets_available,
            },
        );
        self.stocked = Ghost(self.stocked@.push(tickets_available as nat));
        self.concert_counter = concert_id + 1;
        concert_id
    }

    /// The concert numbered `concert_id`, if there is one.
    pub fn get(&self, concert_id: u32) -> (found: Option<Concert>)
        requires
            self.wf(),
        ensures
            found == if self@.has(concert_id as int) {
                Some(self@.concerts[concert_id as int])
            } else {
                None
            },
    {
        if concert_id < self.concert_counter {
            Some(self.concerts[concert_id as usize])
        } else {
            None
        }
    }

    /// Every concert, in the order of their numbers. A well-formed catalog
    /// misses none of them, so the listing does not fail.
    pub fn list_concerts(&self) -> (listed: Result<Vec<Concert>, CustomError>)
        requires
            self.wf(),
        ensures
            listed is Ok,
            listed->Ok_0@ == self@.concerts,
    {
        let mut concerts: Vec<Concert> = Vec::new();
        let mut n: u32 = 0;
        while n < self.concert_counter
            invariant
                self.wf(),
                n <= self.concert_counter,
                concerts@ == self@.concerts.subrange(0, n as int),
            decreases self.concert_counter - n,
        {
            match self.get(n) {
                Some(concert) => {
                    concerts.push(concert);
                },
                None => {
                    return Err(CustomError::ConcertDoesntExist);
                },
            }
            assert(concerts@ =~= self@.concerts.subrange(0, n + 1));
            n += 1;
        }
        assert(concerts@ =~= self@.concerts);
        Ok(concerts)
    }

    /// Takes one ticket of `concert_id` out of the inventory and returns the
    /// concert as it then stands. A concert without tickets is left as it is.
    pub fn decrement_inventory(&mut self, concert_id: u32) -> (updated: Result<Concert, CustomError>)
        requires
            old(self).wf(),
        ensures
            final(self).wf(),
            match updated {
                Ok(concert) => {
                    &&& old(self)@.has(concert_id as int)
                    &&& old(self)@.concerts[concert_id as int].tickets_left >= 1
                    &&& concert == old(self)@.sold_one(concert_id as int)
                    &&& final(self)@ == old(self)@.with_sale(concert_id as int)
                },
                Err(error) => {
                    &&& final(self)@ == old(self)@
                    &&& error == if old(self)@.has(concert_id as int) {
                        CustomError::TicketsSoldOut
                    } else {
                        CustomError::ConcertDoesntExist
                    }
                    &&& old(self)@.has(concert_id as int) ==> old(self)@.concerts[concert_id as int].tickets_left
                        == 0
                },
            },
    {
        let mut concert = match self.get(concert_id) {
            Some(concert) => concert,
            None => {
                return Err(CustomError::ConcertDoesntExist);
            },
        };
        if concert.tickets_left < 1 {
            return Err(CustomError::TicketsSoldOut);
        }
        proof {
            self@.lemma_with_sale(concert_id as int);
        }
        concert.tickets_left -= 1;
        self.concerts[concert_id as usize] = concert;
        Ok(concert)
    }
}

} // verus!
