use pallet_oracle::{Error, Event, Origin, Pallet, HOUR_DURATION};

const ALICE: u64 = 1u64;

#[test]
fn it_works_for_default_value() {
    let mut pallet = Pallet::default();
    assert_eq!(pallet.authorize(Origin::Root, ALICE), Ok(()));
    assert_eq!(pallet.handle_event(Origin::Root, vec![], 0), Err(Error::BadOrigin));

    assert!(pallet.handle_event(Origin::Signed(ALICE), vec![], 0).is_ok());

    for _i in 0..2000 {
        assert!(pallet.handle_event(Origin::Signed(ALICE), vec![], 0).is_ok());
    }
    let storage = &pallet.event_storage;
    let len = storage.events.len();
    assert_eq!(len, 1000);
}

#[test]
fn authorize_needs_root() {
    let mut pallet = Pallet::default();
    assert_eq!(pallet.authorize(Origin::Signed(ALICE), ALICE), Err(Error::BadOrigin));
    assert_eq!(pallet.authorize(Origin::Unsigned, ALICE), Err(Error::BadOrigin));
    assert_eq!(pallet.oracle_account, None);
    assert_eq!(pallet.authorize(Origin::Root, 7), Ok(()));
    assert_eq!(pallet.oracle_account, Some(7));
}

#[test]
fn handle_event_refusals_leave_storage_alone() {
    let mut pallet = Pallet::default();
    assert_eq!(pallet.handle_event(Origin::Signed(ALICE), vec![1], 5), Err(Error::WrongOrigin));
    pallet.authorize(Origin::Root, ALICE).unwrap();
    assert_eq!(pallet.handle_event(Origin::Unsigned, vec![1], 5), Err(Error::BadOrigin));
    assert_eq!(pallet.handle_event(Origin::Signed(2), vec![1], 5), Err(Error::WrongOrigin));
    assert_eq!(
        pallet.handle_event(Origin::Signed(ALICE), vec![1], u64::MAX as u128 + 1),
        Err(Error::SystemError)
    );
    assert_eq!(pallet.event_storage.get_size(), 0);
}

#[test]
fn handle_event_cleans_then_records() {
    let mut pallet = Pallet::default();
    pallet.authorize(Origin::Root, ALICE).unwrap();
    assert_eq!(
        pallet.handle_event(Origin::Signed(ALICE), vec![1], 1000),
        Ok(Event::ReceivedEvent(1000))
    );
    assert_eq!(
        pallet.handle_event(Origin::Signed(ALICE), vec![2], 2000),
        Ok(Event::ReceivedEvent(2000))
    );
    let later = 1001 + HOUR_DURATION;
    assert_eq!(
        pallet.handle_event(Origin::Signed(ALICE), vec![3], later as u128),
        Ok(Event::ReceivedEvent(later))
    );
    let storage = &pallet.event_storage;
    assert_eq!((storage.get_start(), storage.get_size()), (1, 2));
    assert_eq!(storage.get_event(0).data, vec![2]);
    assert_eq!(storage.get_event(1).timestamp, later);
}
