use tickets::{AccountId, Concert, CustomError, Tickets};

const DATE: u64 = 1780600226001;

fn bob() -> AccountId {
    AccountId([2u8; 32])
}

fn alice() -> AccountId {
    AccountId([1u8; 32])
}

fn buy(office: &mut Tickets, concert_id: u32, caller: AccountId, paid: u128, now: u64) -> Result<String, CustomError> {
    office.buy_ticket(concert_id, "pawel".to_string(), "doe".to_string(), caller, paid, now)
}

#[test]
fn default_works() {
    let mut tickets = Tickets::default();
    let bob = bob();
    assert_eq!(tickets.add_new_concert(30, 30, 1780600226001), 0);
    assert_eq!(
        tickets.buy_ticket(0, "pawel".to_string(), "doe".to_string(), bob, 30, 0),
        Ok("0, 30".to_string())
    );
    assert_eq!(tickets.get_my_tickets(&bob), Ok(vec!["0, 30".to_string()]));
}

#[test]
fn default_is_empty_and_unnamed() {
    let office = Tickets::default();
    assert_eq!(office.name(), "");
    assert_eq!(office.description(), "");
    assert_eq!(office.concert_count(), 0);
    assert_eq!(office.get_concerts(), Ok(vec![]));
    assert_eq!(office.get_my_tickets(&bob()), Err(CustomError::AccountNotFound));
}

#[test]
fn new_keeps_name_and_description() {
    let office = Tickets::new("Arena".to_string(), "Concerts in town".to_string());
    assert_eq!(office.name(), "Arena");
    assert_eq!(office.description(), "Concerts in town");
    assert_eq!(office.concert_count(), 0);
    assert_eq!(office.get_concerts(), Ok(vec![]));
}

#[test]
fn concerts_are_numbered_in_order() {
    let mut office = Tickets::default();
    assert_eq!(office.add_new_concert(30, 30, DATE), 0);
    assert_eq!(office.add_new_concert(0, 7, 5), 1);
    assert_eq!(office.add_new_concert(u32::MAX, u128::MAX, u64::MAX), 2);
    assert_eq!(office.concert_count(), 3);
    assert_eq!(
        office.get_concerts(),
        Ok(vec![
            Concert { concert_id: 0, ticket_price: 30, date: DATE, tickets_left: 30 },
            Concert { concert_id: 1, ticket_price: 7, date: 5, tickets_left: 0 },
            Concert { concert_id: 2, ticket_price: u128::MAX, date: u64::MAX, tickets_left: u32::MAX },
        ])
    );
}

#[test]
fn many_concerts_have_no_gap() {
    let mut office = Tickets::default();
    for n in 0..200u32 {
        assert_eq!(office.add_new_concert(n, 1, 1), n);
    }
    let listed = office.get_concerts().unwrap();
    assert_eq!(listed.len(), 200);
    for (index, concert) in listed.iter().enumerate() {
        assert_eq!(concert.concert_id as usize, index);
        assert_eq!(concert.tickets_left as usize, index);
    }
}

#[test]
fn purchases_follow_the_example() {
    let mut office = Tickets::default();
    assert_eq!(office.add_new_concert(30, 30, DATE), 0);
    assert_eq!(buy(&mut office, 0, bob(), 30, DATE - 1), Ok("0, 30".to_string()));
    assert_eq!(office.get_my_tickets(&bob()), Ok(vec!["0, 30".to_string()]));
    assert_eq!(buy(&mut office, 0, bob(), 30, DATE - 1), Ok("0, 29".to_string()));
    assert_eq!(office.get_concerts().unwrap()[0].tickets_left, 28);
    assert_eq!(
        office.get_my_tickets(&bob()),
        Ok(vec!["0, 30".to_string(), "0, 29".to_string()])
    );
}

#[test]
fn overpayment_after_one_sale_is_refused() {
    let mut office = Tickets::default();
    office.add_new_concert(30, 30, DATE);
    assert_eq!(buy(&mut office, 0, bob(), 30, 1), Ok("0, 30".to_string()));
    assert_eq!(office.get_concerts().unwrap()[0].tickets_left, 29);
    assert_eq!(buy(&mut office, 0, bob(), 31, 1), Err(CustomError::IncorrectPaymentValue));
    assert_eq!(office.get_concerts().unwrap()[0].tickets_left, 29);
    assert_eq!(office.get_my_tickets(&bob()), Ok(vec!["0, 30".to_string()]));
}

#[test]
fn inventory_counts_down_and_stops_at_zero() {
    let mut office = Tickets::default();
    office.add_new_concert(3, 5, DATE);
    let mut seen = vec![3u32];
    for _ in 0..6 {
        let _ = buy(&mut office, 0, bob(), 5, 0);
        seen.push(office.get_concerts().unwrap()[0].tickets_left);
    }
    assert_eq!(seen, vec![3, 2, 1, 0, 0, 0, 0]);
}

#[test]
fn last_ticket_then_sold_out() {
    let mut office = Tickets::default();
    office.add_new_concert(1, 9, DATE);
    assert_eq!(buy(&mut office, 0, bob(), 9, DATE), Ok("0, 1".to_string()));
    assert_eq!(buy(&mut office, 0, bob(), 9, DATE), Err(CustomError::TicketsSoldOut));
    assert_eq!(buy(&mut office, 0, alice(), 9, 0), Err(CustomError::TicketsSoldOut));
    assert_eq!(office.get_concerts().unwrap()[0].tickets_left, 0);
    assert_eq!(office.get_my_tickets(&bob()), Ok(vec!["0, 1".to_string()]));
    assert_eq!(office.get_my_tickets(&alice()), Err(CustomError::AccountNotFound));
}

#[test]
fn concert_without_tickets_is_sold_out() {
    let mut office = Tickets::default();
    office.add_new_concert(0, 9, DATE);
    assert_eq!(buy(&mut office, 0, bob(), 9, 0), Err(CustomError::TicketsSoldOut));
}

#[test]
fn purchase_after_the_date_is_refused() {
    let mut office = Tickets::default();
    office.add_new_concert(30, 30, DATE);
    assert_eq!(buy(&mut office, 0, bob(), 30, DATE + 1), Err(CustomError::ConcertFinished));
    assert_eq!(buy(&mut office, 0, bob(), 29, DATE + 1), Err(CustomError::ConcertFinished));
    assert_eq!(buy(&mut office, 0, bob(), 31, u64::MAX), Err(CustomError::ConcertFinished));
    assert_eq!(office.get_concerts().unwrap()[0].tickets_left, 30);
    assert_eq!(office.get_my_tickets(&bob()), Err(CustomError::AccountNotFound));
}

#[test]
fn purchase_at_the_date_is_accepted() {
    let mut office = Tickets::default();
    office.add_new_concert(30, 30, DATE);
    assert_eq!(buy(&mut office, 0, bob(), 30, DATE), Ok("0, 30".to_string()));
}

#[test]
fn wrong_payment_changes_nothing() {
    let mut office = Tickets::default();
    office.add_new_concert(30, 30, DATE);
    assert_eq!(buy(&mut office, 0, bob(), 29, 0), Err(CustomError::IncorrectPaymentValue));
    assert_eq!(buy(&mut office, 0, bob(), 31, 0), Err(CustomError::IncorrectPaymentValue));
    assert_eq!(buy(&mut office, 0, bob(), 0, 0), Err(CustomError::IncorrectPaymentValue));
    assert_eq!(buy(&mut office, 0, bob(), u128::MAX, 0), Err(CustomError::IncorrectPaymentValue));
    assert_eq!(
        office.get_concerts(),
        Ok(vec![Concert { concert_id: 0, ticket_price: 30, date: DATE, tickets_left: 30 }])
    );
    assert_eq!(office.get_my_tickets(&bob()), Err(CustomError::AccountNotFound));
    assert_eq!(office.ticket_owner("0, 30"), None);
    assert_eq!(office.ticket_holder("0, 30"), None);
}

#[test]
fn unknown_concert_is_refused() {
    let mut office = Tickets::default();
    assert_eq!(buy(&mut office, 0, bob(), 30, 0), Err(CustomError::ConcertDoesntExist));
    office.add_new_concert(30, 30, DATE);
    assert_eq!(buy(&mut office, 1, bob(), 30, 0), Err(CustomError::ConcertDoesntExist));
    assert_eq!(buy(&mut office, u32::MAX, bob(), 30, 0), Err(CustomError::ConcertDoesntExist));
    assert_eq!(office.get_concerts().unwrap()[0].tickets_left, 30);
}

#[test]
fn checks_come_in_order() {
    let mut office = Tickets::default();
    office.add_new_concert(0, 30, 10);
    office.add_new_concert(5, 30, 10);
    // no concert, late and wrong payment: the missing concert is named
    assert_eq!(buy(&mut office, 7, bob(), 1, 11), Err(CustomError::ConcertDoesntExist));
    // sold out, late and wrong payment: sold out is named
    assert_eq!(buy(&mut office, 0, bob(), 1, 11), Err(CustomError::TicketsSoldOut));
    // late and wrong payment: the date is named
    assert_eq!(buy(&mut office, 1, bob(), 1, 11), Err(CustomError::ConcertFinished));
    // wrong payment alone
    assert_eq!(buy(&mut office, 1, bob(), 1, 10), Err(CustomError::IncorrectPaymentValue));
    assert_eq!(buy(&mut office, 1, bob(), 30, 10), Ok("1, 5".to_string()));
}

#[test]
fn ticket_is_listed_once_and_only_for_its_buyer() {
    let mut office = Tickets::default();
    office.add_new_concert(4, 2, DATE);
    office.add_new_concert(4, 3, DATE);
    assert_eq!(buy(&mut office, 0, alice(), 2, 0), Ok("0, 4".to_string()));
    assert_eq!(buy(&mut office, 1, alice(), 3, 0), Ok("1, 4".to_string()));
    let bought = buy(&mut office, 0, bob(), 2, 0).unwrap();
    assert_eq!(bought, "0, 3");
    assert_eq!(buy(&mut office, 0, alice(), 2, 0), Ok("0, 2".to_string()));
    let of_bob = office.get_my_tickets(&bob()).unwrap();
    let of_alice = office.get_my_tickets(&alice()).unwrap();
    assert_eq!(of_bob.iter().filter(|t| **t == bought).count(), 1);
    assert_eq!(of_alice.iter().filter(|t| **t == bought).count(), 0);
    assert_eq!(of_bob, vec!["0, 3".to_string()]);
    assert_eq!(
        of_alice,
        vec!["0, 4".to_string(), "1, 4".to_string(), "0, 2".to_string()]
    );
    assert_eq!(office.ticket_owner("0, 3"), Some(bob()));
    assert_eq!(office.ticket_owner("0, 4"), Some(alice()));
    assert_eq!(office.ticket_owner("0, 1"), None);
}

#[test]
fn holder_name_joins_name_and_surname() {
    let mut office = Tickets::default();
    office.add_new_concert(2, 2, DATE);
    assert_eq!(
        office.buy_ticket(0, "pawel".to_string(), "doe".to_string(), bob(), 2, 0),
        Ok("0, 2".to_string())
    );
    assert_eq!(
        office.buy_ticket(0, "".to_string(), "".to_string(), alice(), 2, 0),
        Ok("0, 1".to_string())
    );
    assert_eq!(office.ticket_holder("0, 2"), Some("pawel doe".to_string()));
    assert_eq!(office.ticket_holder("0, 1"), Some(" ".to_string()));
    assert_eq!(office.ticket_holder("0, 0"), None);
}

#[test]
fn account_without_tickets_is_not_found() {
    let mut office = Tickets::default();
    office.add_new_concert(2, 2, DATE);
    assert_eq!(office.get_my_tickets(&alice()), Err(CustomError::AccountNotFound));
    buy(&mut office, 0, bob(), 2, 0).unwrap();
    assert_eq!(office.get_my_tickets(&alice()), Err(CustomError::AccountNotFound));
}

#[test]
fn all_tickets_of_all_concerts_are_distinct() {
    let mut office = Tickets::default();
    for _ in 0..12 {
        office.add_new_concert(11, 1, DATE);
    }
    let mut all: Vec<String> = Vec::new();
    for concert_id in 0..12u32 {
        for _ in 0..11 {
            all.push(buy(&mut office, concert_id, bob(), 1, 0).unwrap());
        }
    }
    assert_eq!(office.get_my_tickets(&bob()), Ok(all.clone()));
    let mut sorted = all.clone();
    sorted.sort();
    sorted.dedup();
    assert_eq!(sorted.len(), all.len());
    assert!(all.contains(&"1, 11".to_string()));
    assert!(all.contains(&"11, 1".to_string()));
    assert!(all.contains(&"11, 11".to_string()));
    for id in all.iter() {
        assert_eq!(office.ticket_owner(id), Some(bob()));
    }
}
