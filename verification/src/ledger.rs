//! The ledger of tickets: who owns each ticket, under which name it was
//! bought, and which tickets each account holds, in the order of purchase.

use vstd::prelude::*;
use vstd::hash_map::StringHashMap;
use crate::account::AccountId;
use crate::error::CustomError;

verus! {

/// What a ledger holds.
pub struct LedgerView {
    /// The account that owns each ticket.
    pub owners: Map<Seq<char>, AccountId>,
    /// The name under which each ticket was bought.
    pub holder_names: Map<Seq<char>, Seq<char>>,
    /// The tickets of each account that has bought one, oldest first.
    pub tickets_of: Map<AccountId, Seq<Seq<char>>>,
}

impl LedgerView {
    /// The ledger without tickets.
    pub open spec fn empty() -> LedgerView {
        LedgerView { owners: Map::empty(), holder_names: Map::empty(), tickets_of: Map::empty() }
    }

    /// The tickets of `account`, none if it has never bought one.
    pub open spec fn list_of(self, account: AccountId) -> Seq<Seq<char>> {
        if self.tickets_of.contains_key(account) {
            self.tickets_of[account]
        } else {
            Seq::empty()
        }
    }

    /// The three tables agree: every ticket has an owner and a holder name;
    /// no list is empty or holds a ticket twice; and a ticket stands in the
    /// list of an account exactly when that account owns it.
    pub open spec fn wf(self) -> bool {
        &&& forall|t: Seq<char>| self.holder_names.contains_key(t) <==> self.owners.contains_key(t)
        &&& forall|a: AccountId| #[trigger]
            self.tickets_of.contains_key(a) ==> self.tickets_of[a].len() > 0
                && self.tickets_of[a].no_duplicates()
        &&& forall|a: AccountId, i: int|
            self.tickets_of.contains_key(a) && 0 <= i < self.tickets_of[a].len() ==> {
                &&& self.owners.contains_key(#[trigger] self.tickets_of[a][i])
                &&& self.owners[self.tickets_of[a][i]] == a
            }
        &&& forall|t: Seq<char>| #[trigger]
            self.owners.contains_key(t) ==> self.tickets_of.contains_key(self.owners[t])
                && self.tickets_of[self.owners[t]].contains(t)
    }

    /// The ledger after the ticket `ticket_id` was sold to `owner` under the
    /// name `owner_name`.
    pub open spec fn with_sale(
        self,
        ticket_id: Seq<char>,
        owner: AccountId,
        owner_name: Seq<char>,
    ) -> LedgerView {
        LedgerView {
            owners: self.owners.insert(ticket_id, owner),
            holder_names: self.holder_names.insert(ticket_id, owner_name),
            tickets_of: self.tickets_of.insert(owner, self.list_of(owner).push(ticket_id)),
        }
    }

    /// Recording the sale of a ticket that the ledger does not hold yet
    /// keeps the three tables in agreement.
    pub proof fn lemma_with_sale(self, ticket_id: Seq<char>, owner: AccountId, owner_name: Seq<char>)
        requires
            self.wf(),
            !self.owners.contains_key(ticket_id),
        ensures
            self.with_sale(ticket_id, owner, owner_name).wf(),
    {
        let after = self.with_sale(ticket_id, owner, owner_name);
        let before_list = self.list_of(owner);
        let after_list = before_list.push(ticket_id);
        assert forall|i: int| 0 <= i < before_list.len() implies before_list[i] != ticket_id by {
            assert(self.owners.contains_key(self.tickets_of[owner][i]));
        }
        assert(after_list.no_duplicates());
        assert forall|a: AccountId| #[trigger] after.tickets_of.contains_key(a) implies after.tickets_of[a].len()
            > 0 && after.tickets_of[a].no_duplicates() by {
            if a != owner {
                assert(self.tickets_of.contains_key(a));
            }
        }
        assert forall|a: AccountId, i: int|
            after.tickets_of.contains_key(a) && 0 <= i < after.tickets_of[a].len() implies {
            &&& after.owners.contains_key(#[trigger] after.tickets_of[a][i])
            &&& after.owners[after.tickets_of[a][i]] == a
        } by {
            if a == owner {
                if i < before_list.len() {
                    assert(after_list[i] == self.tickets_of[owner][i]);
                    assert(self.owners.contains_key(self.tickets_of[owner][i]));
                }
            } else {
                assert(self.owners.contains_key(self.tickets_of[a][i]));
            }
        }
        assert forall|t: Seq<char>| #[trigger] after.owners.contains_key(t) implies after.tickets_of.contains_key(
            after.owners[t],
        ) && after.tickets_of[after.owners[t]].contains(t) by {
            if t == ticket_id {
                assert(after_list[before_list.len() as int] == ticket_id);
            } else {
                assert(self.owners.contains_key(t));
                let a = self.owners[t];
                let i = choose|i: int| 0 <= i < self.tickets_of[a].len() && self.tickets_of[a][i] == t;
                if a == owner {
                    assert(after_list[i] == t);
                } else {
                    assert(after.tickets_of[a][i] == t);
                }
            }
        }
    }

    /// A ticket stands once in its owner's list and in no other list.
    pub proof fn lemma_listed_once(self, ticket_id: Seq<char>)
        requires
            self.wf(),
            self.owners.contains_key(ticket_id),
        ensures
            self.tickets_of.contains_key(self.owners[ticket_id]),
            self.tickets_of[self.owners[ticket_id]].filter(|t: Seq<char>| t == ticket_id).len() == 1,
            forall|a: AccountId|
                self.tickets_of.contains_key(a) && a != self.owners[ticket_id]
                    ==> !self.tickets_of[a].contains(ticket_id),
    {
        let list = self.tickets_of[self.owners[ticket_id]];
        lemma_occurs_once(list, ticket_id);
        assert forall|a: AccountId|
            self.tickets_of.contains_key(a) && a != self.owners[ticket_id]
            implies !self.tickets_of[a].contains(ticket_id) by {
            if self.tickets_of[a].contains(ticket_id) {
                let i = choose|i: int| 0 <= i < self.tickets_of[a].len() && self.tickets_of[a][i] == ticket_id;
                assert(self.owners[self.tickets_of[a][i]] == a);
            }
        }
    }
}

/// In a list without repetition, an item that occurs, occurs once.
pub proof fn lemma_occurs_once(list: Seq<Seq<char>>, item: Seq<char>)
    requires
        list.no_duplicates(),
        list.contains(item),
    ensures
        list.filter(|t: Seq<char>| t == item).len() == 1,
    decreases list.len(),
{
    let same = |t: Seq<char>| t == item;
    reveal(Seq::filter);
    if list.len() > 0 {
        let front = list.drop_last();
        assert(front.no_duplicates());
        if list.last() == item {
            lemma_occurs_never(front, item);
        } else {
            let i = choose|i: int| 0 <= i < list.len() && list[i] == item;
            assert(front[i] == item);
            lemma_occurs_once(front, item);
        }
    }
}

/// An item that a list does not hold occurs in it no times.
pub proof fn lemma_occurs_never(list: Seq<Seq<char>>, item: Seq<char>)
    requires
        !list.contains(item),
    ensures
        list.filter(|t: Seq<char>| t == item).len() == 0,
    decreases list.len(),
{
    reveal(Seq::filter);
    if list.len() > 0 {
        let front = list.drop_last();
        assert(list[list.len() - 1] != item);
        assert forall|i: int| 0 <= i < front.len() implies front[i] != item by {
            assert(list[i] == front[i]);
        }
        lemma_occurs_never(front, item);
    }
}

/// The tickets of one account, oldest first.
struct AccountTickets {
    account: AccountId,
    tickets: Vec<String>,
}

/// Whether a row is kept for `account`.
spec fn has_row(rows: Seq<AccountTickets>, account: AccountId) -> bool {
    exists|i: int| 0 <= i < rows.len() && (#[trigger] rows[i]).account == account
}

/// The index of the row kept for `account`.
spec fn row_of(rows: Seq<AccountTickets>, account: AccountId) -> int {
    choose|i: int| 0 <= i < rows.len() && (#[trigger] rows[i]).account == account
}

/// No two rows are kept for one account.
spec fn one_row_each(rows: Seq<AccountTickets>) -> bool {
    forall|i: int, j: int|
        0 <= i < j < rows.len() ==> (#[trigger] rows[i]).account != (#[trigger] rows[j]).account
}

/// The table that the rows stand for.
spec fn table_of(rows: Seq<AccountTickets>) -> Map<AccountId, Seq<Seq<char>>> {
    Map::new(
        |account: AccountId| has_row(rows, account),
        |account: AccountId| rows[row_of(rows, account)].tickets.deep_view(),
    )
}

/// With one row per account, the row at an index is the row of its account.
proof fn lemma_row_of(rows: Seq<AccountTickets>, i: int)
    requires
        one_row_each(rows),
        0 <= i < rows.len(),
    ensures
        has_row(rows, rows[i].account),
        row_of(rows, rows[i].account) == i,
        table_of(rows).contains_key(rows[i].account),
        table_of(rows)[rows[i].account] == rows[i].tickets.deep_view(),
{
    let j = row_of(rows, rows[i].account);
    assert(0 <= j < rows.len() && rows[j].account == rows[i].account);
}

/// The ledger of tickets.
pub struct TicketLedger {
    account_tickets: Vec<AccountTickets>,
    tickets_map: StringHashMap<AccountId>,
    tickets_owners_map: StringHashMap<String>,
}

impl View for TicketLedger {
    type V = LedgerView;

    closed spec fn view(&self) -> LedgerView {
        LedgerView {
            owners: self.tickets_map@,
            holder_names: Map::new(
                |t: Seq<char>| self.tickets_owners_map@.contains_key(t),
                |t: Seq<char>| self.tickets_owners_map@[t]@,
            ),
            tickets_of: table_of(self.account_tickets@),
        }
    }
}

impl TicketLedger {
    /// What every ledger keeps: its tables agree.
    pub closed spec fn wf(&self) -> bool {
        &&& self@.wf()
        &&& one_row_each(self.account_tickets@)
    }

    /// A well-formed ledger has tables that agree.
    pub proof fn lemma_wf(&self)
        requires
            self.wf(),
        ensures
            self@.wf(),
    {
    }

    /// The ledger without tickets.
    pub fn new() -> (ledger: TicketLedger)
        ensures
            ledger.wf(),
            ledger@ == LedgerView::empty(),
    {
        let ledger = TicketLedger {
            account_tickets: Vec::new(),
            tickets_map: StringHashMap::new(),
            tickets_owners_map: StringHashMap::new(),
        };
        assert(ledger@.holder_names =~= Map::empty());
        assert(ledger@.tickets_of =~= Map::empty());
        ledger
    }

    /// The index of the row kept for `account`, if there is one.
    fn find(&self, account: &AccountId) -> (found: Option<usize>)
        requires
            self.wf(),
        ensures
            match found {
                Some(i) => {
                    &&& i < self.account_tickets@.len()
                    &&& self.account_tickets@[i as int].account == *account
                    &&& self@.tickets_of.contains_key(*account)
                    &&& self@.tickets_of[*account] == self.account_tickets@[i as int].tickets.deep_view()
                },
                None => {
                    &&& !self@.tickets_of.contains_key(*account)
                    &&& !has_row(self.account_tickets@, *account)
                },
            },
    {
        let mut i: usize = 0;
        while i < self.account_tickets.len()
            invariant
                self.wf(),
                i <= self.account_tickets@.len(),
                forall|j: int| 0 <= j < i ==> (#[trigger] self.account_tickets@[j]).account != *account,
            decreases self.account_tickets@.len() - i,
        {
            if self.account_tickets[i].account == *account {
                proof {
                    lemma_row_of(self.account_tickets@, i as int);
                }
                return Some(i);
            }
            i += 1;
        }
        None
    }

    /// The account that owns the ticket `ticket_id`, if it has been sold.
    pub fn owner_of(&self, ticket_id: &str) -> (owner: Option<AccountId>)
        requires
            self.wf(),
        ensures
            owner == if self@.owners.contains_key(ticket_id@) {
                Some(self@.owners[ticket_id@])
            } else {
                None
            },
    {
        match self.tickets_map.get(ticket_id) {
            Some(owner) => Some(*owner),
            None => None,
        }
    }

    /// The name under which the ticket `ticket_id` was bought, if it has
    /// been sold.
    pub fn holder_name(&self, ticket_id: &str) -> (name: Option<String>)
        requires
            self.wf(),
        ensures
            name is Some <==> self@.holder_names.contains_key(ticket_id@),
            name is Some ==> name->Some_0@ == self@.holder_names[ticket_id@],
    {
        match self.tickets_owners_map.get(ticket_id) {
            Some(name) => Some(name.clone()),
            None => None,
        }
    }

    /// The tickets of `account`, in the order in which they were bought.
    /// An account that has never bought a ticket is not found.
    pub fn tickets_for(&self, account: &AccountId) -> (listed: Result<Vec<String>, CustomError>)
        requires
            self.wf(),
        ensures
            match listed {
                Ok(tickets) => {
                    &&& self@.tickets_of.contains_key(*account)
                    &&& tickets.deep_view() == self@.tickets_of[*account]
                },
                Err(error) => {
                    &&& !self@.tickets_of.contains_key(*account)
                    &&& error == CustomError::AccountNotFound
                },
            },
    {
        match self.find(account) {
            Some(i) => {
                let row = &self.account_tickets[i];
                let mut tickets: Vec<String> = Vec::new();
                let mut n: usize = 0;
                while n < row.tickets.len()
                    invariant
                        n <= row.tickets@.len(),
                        tickets@.len() == n,
                        forall|j: int| 0 <= j < n ==> (#[trigger] tickets@[j])@ == row.tickets@[j]@,
                    decreases row.tickets@.len() - n,
                {
                    tickets.push(row.tickets[n].clone());
                    n += 1;
                }
                assert(tickets.deep_view() =~= row.tickets.deep_view());
                Ok(tickets)
            },
            None => Err(CustomError::AccountNotFound),
        }
    }

    /// Records that the ticket `ticket_id`, which the ledger does not hold
    /// yet, was sold to `owner` under the name `owner_name`: the ticket gets
    /// its owner and its holder name and goes to the end of the owner's list.
    pub fn record_sale(&mut self, ticket_id: String, owner: AccountId, owner_name: String)
        requires
            old(self).wf(),
            !old(self)@.owners.contains_key(ticket_id@),
        ensures
            final(self).wf(),
            final(self)@ == old(self)@.with_sale(ticket_id@, owner, owner_name@),
    {
        let ghost before = self@;
        let ghost rows = self.account_tickets@;
        proof {
            before.lemma_with_sale(ticket_id@, owner, owner_name@);
        }
        match self.find(&owner) {
            Some(i) => {
                self.account_tickets[i].tickets.push(ticket_id.clone());
                proof {
                    let after_rows = self.account_tickets@;
                    assert(after_rows.len() == rows.len());
                    assert(after_rows[i as int].account == owner);
                    assert forall|j: int| 0 <= j < rows.len() implies (#[trigger] after_rows[j]).account
                        == rows[j].account by {}
                    assert(one_row_each(after_rows));
                    assert forall|a: AccountId| has_row(after_rows, a) == has_row(rows, a) by {
                        if has_row(rows, a) {
                            let j = row_of(rows, a);
                            assert(after_rows[j].account == a);
                        }
                        if has_row(after_rows, a) {
                            let j = row_of(after_rows, a);
                            assert(rows[j].account == a);
                        }
                    }
                    assert forall|a: AccountId| has_row(after_rows, a) implies #[trigger] table_of(
                        after_rows,
                    )[a] == before.tickets_of.insert(owner, before.list_of(owner).push(ticket_id@))[a] by {
                        let j = row_of(after_rows, a);
                        lemma_row_of(after_rows, j);
                        lemma_row_of(rows, j);
                        if j == i {
                            assert(after_rows[j].tickets.deep_view() =~= rows[j].tickets.deep_view().push(
                                ticket_id@,
                            ));
                        } else {
                            assert(after_rows[j] == rows[j]);
                        }
                    }
                    assert(table_of(after_rows) =~= before.tickets_of.insert(
                        owner,
                        before.list_of(owner).push(ticket_id@),
                    ));
                }
            },
            None => {
                let mut tickets: Vec<String> = Vec::new();
                tickets.push(ticket_id.clone());
                self.account_tickets.push(AccountTickets { account: owner, tickets: tickets });
                proof {
                    let after_rows = self.account_tickets@;
                    let last = rows.len() as int;
                    assert(after_rows[last].account == owner);
                    assert forall|j: int| 0 <= j < rows.len() implies #[trigger] after_rows[j] == rows[j] by {}
                    assert(one_row_each(after_rows));
                    assert forall|a: AccountId| has_row(after_rows, a) == (has_row(rows, a) || a
                        == owner) by {
                        if has_row(rows, a) {
                            let j = row_of(rows, a);
                            assert(after_rows[j].account == a);
                        }
                        if has_row(after_rows, a) && a != owner {
                            let j = row_of(after_rows, a);
                            assert(rows[j].account == a);
                        }
                    }
                    assert forall|a: AccountId| has_row(after_rows, a) implies #[trigger] table_of(
                        after_rows,
                    )[a] == before.tickets_of.insert(owner, before.list_of(owner).push(ticket_id@))[a] by {
                        let j = row_of(after_rows, a);
                        lemma_row_of(after_rows, j);
                        if j == last {
                            assert(after_rows[j].tickets.deep_view() =~= Seq::<Seq<char>>::empty().push(
                                ticket_id@,
                            ));
                        } else {
                            lemma_row_of(rows, j);
                        }
                    }
                    assert(table_of(after_rows) =~= before.tickets_of.insert(
                        owner,
                        before.list_of(owner).push(ticket_id@),
                    ));
                }
            },
        }
        self.tickets_map.insert(ticket_id.clone(), owner);
        self.tickets_owners_map.insert(ticket_id, owner_name);
        assert(self@.holder_names =~= before.holder_names.insert(ticket_id@, owner_name@));
    }
}

} // verus!
